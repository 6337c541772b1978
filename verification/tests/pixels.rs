use pixel_lens::pixels::{
    bgra_to_rgba, clip_to_screen, pixmap_bits_per_pixel, x11_image_to_rgba, CaptureRect, PixmapFormat, UnsupportedBpp,
};

#[test]
fn x11_32_bit_pixels_become_opaque_rgba() {
    // 2x1 image, BGRX
    let data = [1u8, 2, 3, 9, 4, 5, 6, 9];
    let out = x11_image_to_rgba(&data, 32, 2, 1, 2, 1, 32).unwrap();
    assert_eq!(out, vec![3, 2, 1, 255, 6, 5, 4, 255]);
}

#[test]
fn x11_smaller_capture_leaves_black_transparent_pixels() {
    // captured 1x1 but 2x2 requested
    let data = [10u8, 20, 30, 0];
    let out = x11_image_to_rgba(&data, 32, 1, 1, 2, 2, 32).unwrap();
    assert_eq!(out, vec![30, 20, 10, 255, 0, 0, 0, 0, 0, 0, 0, 0, 0, 0, 0, 0]);
}

#[test]
fn x11_24_bit_rows_are_padded() {
    // 1 pixel wide, 2 rows, 24 bits, rows padded to 32 bits: 4 bytes per row
    let data = [1u8, 2, 3, 0, 4, 5, 6, 0];
    let out = x11_image_to_rgba(&data, 24, 1, 2, 1, 2, 32).unwrap();
    assert_eq!(out, vec![3, 2, 1, 255, 6, 5, 4, 255]);
}

#[test]
fn x11_short_data_skips_pixels() {
    let data = [1u8, 2, 3];
    let out = x11_image_to_rgba(&data, 32, 1, 1, 1, 1, 32).unwrap();
    assert_eq!(out, vec![0, 0, 0, 0]);
    let out = x11_image_to_rgba(&data, 24, 1, 1, 1, 1, 32).unwrap();
    assert_eq!(out, vec![3, 2, 1, 255]);
}

#[test]
fn x11_other_depths_are_refused() {
    assert_eq!(x11_image_to_rgba(&[0u8; 4], 16, 1, 1, 1, 1, 32), Err(UnsupportedBpp { bpp: 16 }));
}

#[test]
fn bits_per_pixel_lookup() {
    let formats = [
        PixmapFormat { depth: 1, bits_per_pixel: 1 },
        PixmapFormat { depth: 24, bits_per_pixel: 32 },
        PixmapFormat { depth: 24, bits_per_pixel: 24 },
    ];
    assert_eq!(pixmap_bits_per_pixel(&formats, 24), 32);
    assert_eq!(pixmap_bits_per_pixel(&formats, 1), 1);
    assert_eq!(pixmap_bits_per_pixel(&formats, 8), 32);
}

#[test]
fn clipping_keeps_rectangle_on_screen() {
    assert_eq!(clip_to_screen(-5, -5, 20, 20, 1920, 1080), CaptureRect { x: 0, y: 0, width: 20, height: 20 });
    assert_eq!(clip_to_screen(1910, 1075, 20, 20, 1920, 1080), CaptureRect { x: 1910, y: 1075, width: 10, height: 5 });
    assert_eq!(clip_to_screen(5000, 5000, 20, 20, 1920, 1080), CaptureRect { x: 1919, y: 1079, width: 1, height: 1 });
    assert_eq!(clip_to_screen(0, 0, 0, u32::MAX, 100, 100), CaptureRect { x: 0, y: 0, width: 1, height: 1 });
    assert_eq!(clip_to_screen(3, 3, 20, 20, 0, 0), CaptureRect { x: -1, y: -1, width: 1, height: 1 });
}

#[test]
fn bgra_swap_exchanges_blue_and_red() {
    let mut buf = vec![1u8, 2, 3, 4, 5, 6, 7, 8, 9, 10];
    bgra_to_rgba(&mut buf);
    assert_eq!(buf, vec![3, 2, 1, 4, 7, 6, 5, 8, 9, 10]);
    bgra_to_rgba(&mut buf);
    assert_eq!(buf, vec![1, 2, 3, 4, 5, 6, 7, 8, 9, 10]);
}
