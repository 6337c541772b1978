//! Turning captured screen pixels into what the magnifier shows.
use vstd::prelude::*;
use crate::codec::{
    base64_encode, base64_len, base64_standard, encode_png_rgba8, nearest_resized, png_rgba8, rgba_buffer_fits,
    rgba_image_as_raw, rgba_image_from_raw, rgba_image_into_raw, rgba_resize_nearest,
};
use crate::pixels::pixel_index;

verus! {

/// A captured square of the screen: the PNG image as base64 text, its size, and the
/// color of its center pixel.
#[derive(Debug, Clone)]
pub struct CaptureResult {
    pub image_b64: String,
    pub width: u32,
    pub height: u32,
    pub center_r: u8,
    pub center_g: u8,
    pub center_b: u8,
}

/// Offset of the center pixel of a `size` by `size` RGBA image.
pub open spec fn center_index(size: u32) -> int {
    ((size / 2) * size + size / 2) * 4
}

/// The color of the center pixel, or black when the buffer is too short to hold it.
pub open spec fn center_color(pixels: Seq<u8>, size: u32) -> (u8, u8, u8) {
    let i = center_index(size);
    if i + 2 < pixels.len() {
        (pixels[i], pixels[i + 1], pixels[i + 2])
    } else {
        (0, 0, 0)
    }
}

/// Whether the padded base64 text of `n` bytes has a length that fits in `usize`.
pub open spec fn base64_fits(n: int) -> bool {
    base64_len(n) <= usize::MAX
}

/// Whether what follows a successful PNG encoding of a `size` by `size` capture fits
/// the machine: the length of the file's base64 text fits in `usize`, and the offset of
/// the center pixel in a `u32`. Holds when the encoder refuses the pixels.
pub open spec fn png_follow_up_fits(pixels: Seq<u8>, size: u32) -> bool {
    match png_rgba8(pixels, size, size) {
        Some(png) => base64_fits(png.len() as int) && center_index(size) <= u32::MAX,
        None => true,
    }
}

/// Whether the offset of the center pixel of a `size` by `size` capture fits in a `u32`.
pub fn center_index_fits(size: u32) -> (ok: bool)
    ensures
        ok == (center_index(size) <= u32::MAX),
{
    let half = (size / 2) as u128;
    assert(half * (size as u128) <= 0xffff_ffff * 0xffff_ffff) by (nonlinear_arith)
        requires half <= 0xffff_ffff, size <= 0xffff_ffff;
    (half * size as u128 + half) * 4 <= 0xffff_ffff
}

/// Top-left corner of the `size` by `size` square centered on `(cx, cy)`.
pub fn capture_origin(cx: i32, cy: i32, size: u32) -> (origin: (i32, i32))
    requires
        cx - size / 2 >= i32::MIN,
        cy - size / 2 >= i32::MIN,
    ensures
        origin.0 == cx - size / 2,
        origin.1 == cy - size / 2,
{
    let half = (size / 2) as i32;
    (cx - half, cy - half)
}

/// Screen capture where no platform capture exists: always refused.
pub fn capture_screen_region(x: i32, y: i32, w: u32, h: u32, exclude_window_id: u32) -> (res: Result<Vec<u8>, String>)
    ensures
        res matches Err(msg) && msg@ == "Unsupported platform"@,
{
    proof {
        reveal_strlit("Unsupported platform");
    }
    Err("Unsupported platform".to_string())
}

/// What a capture shows once its PNG file is made: the file as base64 text, the size,
/// and the center pixel's color (the pixel at row and column `size / 2`).
pub fn capture_result_from_png(size: u32, pixels: &[u8], png: &[u8]) -> (res: CaptureResult)
    requires
        center_index(size) <= u32::MAX,
        base64_fits(png@.len() as int),
    ensures
        res.image_b64@ == base64_standard(png@),
        res.width == size,
        res.height == size,
        (res.center_r, res.center_g, res.center_b) == center_color(pixels@, size),
        center_index(size) == pixel_index(size as int, (size / 2) as int, (size / 2) as int, 0),
        ({
            let i = ((size / 2) * size + size / 2) * 4;
            if i + 3 <= pixels@.len() {
                res.center_r == pixels@[i] && res.center_g == pixels@[i + 1] && res.center_b == pixels@[i + 2]
            } else {
                res.center_r == 0 && res.center_g == 0 && res.center_b == 0
            }
        }),
{
    let center_idx = ((size / 2 * size + size / 2) * 4) as usize;
    let (cr, cg, cb) = if pixels.len() > 2 && center_idx < pixels.len() - 2 {
        (pixels[center_idx], pixels[center_idx + 1], pixels[center_idx + 2])
    } else {
        (0, 0, 0)
    };
    CaptureResult {
        image_b64: base64_encode(png),
        width: size,
        height: size,
        center_r: cr,
        center_g: cg,
        center_b: cb,
    }
}

/// A square buffer no longer than `size * size * 4` bytes is accepted as an image
/// exactly when it has that many bytes.
proof fn lemma_square_buffer_fits(size: u32, len: int)
    requires
        0 <= len <= size * size * 4,
        len <= usize::MAX,
    ensures
        rgba_buffer_fits(size, size, len) <==> len == size * size * 4,
{
    assert(4 * size * size == size * size * 4) by (nonlinear_arith);
    if size > 0 && len == size * size * 4 {
        assert(4 * size <= size * size * 4) by (nonlinear_arith)
            requires size >= 1;
    }
}

/// Makes the PNG file of the `size` by `size` RGBA pixels of a capture: fails when the
/// buffer is too short for the image, or with the encoder's message when the PNG
/// encoder refuses the pixels.
pub fn encode_capture_png(size: u32, pixels: Vec<u8>) -> (res: Result<Vec<u8>, String>)
    requires
        pixels@.len() <= size * size * 4,
    ensures
        pixels@.len() < size * size * 4 ==> (res matches Err(msg) && msg@ == "Failed to create image buffer"@),
        pixels@.len() == size * size * 4 ==> match png_rgba8(pixels@, size, size) {
            None => res is Err,
            Some(png) => res matches Ok(file) && file@ == png,
        },
{
    let n = pixels.len();
    proof {
        lemma_square_buffer_fits(size, n as int);
    }
    let img = match rgba_image_from_raw(size, size, pixels) {
        Some(img) => img,
        None => {
            proof {
                reveal_strlit("Failed to create image buffer");
            }
            return Err("Failed to create image buffer".to_string());
        },
    };
    let raw = rgba_image_as_raw(&img);
    match encode_png_rgba8(raw.as_slice(), size, size) {
        Ok(png) => Ok(png),
        Err(e) => Err(e.to_string()),
    }
}

/// Encodes the `size` by `size` RGBA pixels of a capture: fails when the buffer is too
/// short for the image, or with the encoder's message when the PNG encoder refuses
/// it; otherwise gives the PNG file as base64 text with the center pixel's color.
pub fn capture_area(size: u32, pixels: Vec<u8>) -> (res: Result<CaptureResult, String>)
    requires
        pixels@.len() <= size * size * 4,
        pixels@.len() == size * size * 4 ==> png_follow_up_fits(pixels@, size),
    ensures
        pixels@.len() < size * size * 4 ==> (res matches Err(msg) && msg@ == "Failed to create image buffer"@),
        pixels@.len() == size * size * 4 ==> match png_rgba8(pixels@, size, size) {
            None => res is Err,
            Some(png) => res matches Ok(c) && {
                &&& c.image_b64@ == base64_standard(png)
                &&& c.width == size
                &&& c.height == size
                &&& (c.center_r, c.center_g, c.center_b) == center_color(pixels@, size)
            },
        },
{
    let png = match encode_capture_png(size, pixels.clone()) {
        Ok(png) => png,
        Err(msg) => return Err(msg),
    };
    Ok(capture_result_from_png(size, pixels.as_slice(), png.as_slice()))
}

/// `capture_area` for callers that cannot tell beforehand whether what follows the
/// PNG encoding fits the machine (`png_follow_up_fits`): `None` when it would not,
/// otherwise what `capture_area` gives.
pub fn checked_capture_area(size: u32, pixels: Vec<u8>) -> (res: Option<Result<CaptureResult, String>>)
    requires
        pixels@.len() <= size * size * 4,
    ensures
        res is None <==> (pixels@.len() == size * size * 4 && !png_follow_up_fits(pixels@, size)),
        res matches Some(r) ==> {
            &&& pixels@.len() < size * size * 4 ==> (r matches Err(msg) && msg@ == "Failed to create image buffer"@)
            &&& pixels@.len() == size * size * 4 ==> match png_rgba8(pixels@, size, size) {
                None => r is Err,
                Some(png) => r matches Ok(c) && {
                    &&& c.image_b64@ == base64_standard(png)
                    &&& c.width == size
                    &&& c.height == size
                    &&& (c.center_r, c.center_g, c.center_b) == center_color(pixels@, size)
                },
            }
        },
{
    if let Ok(png) = encode_capture_png(size, pixels.clone()) {
        if png.len() > usize::MAX / 4 * 3 || !center_index_fits(size) {
            return None;
        }
    }
    Some(capture_area(size, pixels))
}

/// Brings a capture taken in physical pixels to the logical size `w` by `h`: kept as it
/// is when the sizes agree, otherwise resized with the nearest-neighbour filter, which
/// fails when the buffer does not fit an `actual_w` by `actual_h` image.
pub fn scale_to_logical(buf: Vec<u8>, actual_w: u32, actual_h: u32, w: u32, h: u32) -> (res: Result<Vec<u8>, String>)
    requires
        (actual_w != w || actual_h != h) && rgba_buffer_fits(actual_w, actual_h, buf@.len() as int) ==> {
            &&& 4 * actual_w * h <= usize::MAX
            &&& 4 * w <= usize::MAX
            &&& 4 * w * h <= usize::MAX
        },
    ensures
        actual_w == w && actual_h == h ==> res == Ok::<Vec<u8>, String>(buf),
        (actual_w != w || actual_h != h) ==> if rgba_buffer_fits(actual_w, actual_h, buf@.len() as int) {
            res matches Ok(out) && out@ == nearest_resized(buf@, actual_w, actual_h, w, h)
                && out@.len() == 4 * w * h
        } else {
            res matches Err(msg) && msg@ == "macOS CGWL: failed to create ImageBuffer for scaling"@
        },
{
    if actual_w == w && actual_h == h {
        return Ok(buf);
    }
    let img = match rgba_image_from_raw(actual_w, actual_h, buf) {
        Some(img) => img,
        None => {
            proof {
                reveal_strlit("macOS CGWL: failed to create ImageBuffer for scaling");
            }
            return Err("macOS CGWL: failed to create ImageBuffer for scaling".to_string());
        },
    };
    let scaled = rgba_resize_nearest(&img, w, h);
    Ok(rgba_image_into_raw(scaled))
}

} // verus!
