use pixel_lens::capture::{
    capture_area, capture_origin, capture_result_from_png, capture_screen_region, checked_capture_area,
    scale_to_logical,
};

fn square(size: u32) -> Vec<u8> {
    let mut v = Vec::new();
    for i in 0..size * size {
        v.extend_from_slice(&[(i * 10) as u8, 100, 200, 255]);
    }
    v
}

#[test]
fn capture_encodes_png_and_reads_center() {
    let res = capture_area(3, square(3)).unwrap();
    assert!(res.image_b64.starts_with("iVBORw0KGgo"));
    assert_eq!(res.image_b64.len() % 4, 0);
    assert_eq!((res.width, res.height), (3, 3));
    // center pixel is index 4
    assert_eq!((res.center_r, res.center_g, res.center_b), (40, 100, 200));
}

#[test]
fn capture_refuses_short_buffer() {
    assert_eq!(capture_area(3, vec![0u8; 35]).unwrap_err(), "Failed to create image buffer");
}

#[test]
fn capture_of_empty_square_is_refused_by_encoder() {
    assert!(capture_area(0, vec![]).is_err());
}

#[test]
fn checked_capture_agrees_with_capture() {
    let a = checked_capture_area(2, square(2)).unwrap().unwrap();
    let b = capture_area(2, square(2)).unwrap();
    assert_eq!(a.image_b64, b.image_b64);
    assert_eq!((a.center_r, a.center_g, a.center_b), (b.center_r, b.center_g, b.center_b));
}

#[test]
fn result_from_png_base64_encodes() {
    let res = capture_result_from_png(1, &[9, 8, 7, 6], b"hello");
    assert_eq!(res.image_b64, "aGVsbG8=");
    assert_eq!((res.center_r, res.center_g, res.center_b), (9, 8, 7));
    let res = capture_result_from_png(2, &[1, 2, 3, 4], b"");
    assert_eq!(res.image_b64, "");
    assert_eq!((res.center_r, res.center_g, res.center_b), (0, 0, 0));
}

#[test]
fn origin_is_half_size_up_left() {
    assert_eq!(capture_origin(100, 50, 21), (90, 40));
    assert_eq!(capture_origin(0, 0, 2), (-1, -1));
}

#[test]
fn unsupported_platform_capture() {
    assert_eq!(capture_screen_region(0, 0, 1, 1, 0).unwrap_err(), "Unsupported platform");
}

#[test]
fn scaling_keeps_matching_size() {
    assert_eq!(scale_to_logical(vec![1, 2, 3, 4], 1, 1, 1, 1).unwrap(), vec![1, 2, 3, 4]);
}

#[test]
fn scaling_halves_retina_capture() {
    let buf = square(4);
    let out = scale_to_logical(buf.clone(), 4, 4, 2, 2).unwrap();
    assert_eq!(out.len(), 16);
    assert_ne!(out, buf[..16].to_vec());
}

#[test]
fn scaling_refuses_short_buffer() {
    assert_eq!(
        scale_to_logical(vec![0; 10], 4, 4, 2, 2).unwrap_err(),
        "macOS CGWL: failed to create ImageBuffer for scaling"
    );
}

#[test]
fn base64_padding_of_the_capture_text() {
    assert_eq!(capture_result_from_png(1, &[0, 0, 0, 0], b"a").image_b64, "YQ==");
    assert_eq!(capture_result_from_png(1, &[0, 0, 0, 0], b"ab").image_b64, "YWI=");
    assert_eq!(capture_result_from_png(1, &[0, 0, 0, 0], b"abc").image_b64, "YWJj");
    assert_eq!(capture_result_from_png(1, &[0, 0, 0, 0], &[0xff, 0xfe, 0x3f]).image_b64, "//4/");
}

#[test]
fn scaling_empty_source_gives_black_pixels() {
    // a 2x0 source holds no pixels; resizing it gives a black 1x1 image
    assert_eq!(scale_to_logical(vec![], 2, 0, 1, 1).unwrap(), vec![0, 0, 0, 0]);
}
