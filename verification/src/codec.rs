//! The image and base64 crates, as the capture code calls them.
use vstd::prelude::*;
use base64::Engine;
use image::ImageEncoder;
use image::{ImageBuffer, ImageError, Rgba};

verus! {

/// An RGBA image of the image crate (`ImageBuffer<Rgba<u8>, Vec<u8>>`), held opaquely.
#[verifier::external_body]
pub struct RgbaImage {
    buffer: ImageBuffer<Rgba<u8>, Vec<u8>>,
}

#[verifier::external_type_specification]
#[verifier::external_body]
pub struct ExImageError(ImageError);

/// The bytes an RGBA image buffer holds.
pub uninterp spec fn rgba_image_bytes(img: RgbaImage) -> Seq<u8>;

/// The width an RGBA image buffer was made with.
pub uninterp spec fn rgba_image_width(img: RgbaImage) -> u32;

/// The height an RGBA image buffer was made with.
pub uninterp spec fn rgba_image_height(img: RgbaImage) -> u32;

/// The PNG file the image crate's PNG encoder writes for `width` by `height` RGBA
/// pixels of 8 bits per channel, or `None` when it refuses them.
pub uninterp spec fn png_rgba8(data: Seq<u8>, width: u32, height: u32) -> Option<Seq<u8>>;

/// The 64 characters of the standard base64 alphabet (RFC 4648), in order of value.
pub open spec fn base64_alphabet() -> Seq<char> {
    seq![
        'A', 'B', 'C', 'D', 'E', 'F', 'G', 'H', 'I', 'J', 'K', 'L', 'M',
        'N', 'O', 'P', 'Q', 'R', 'S', 'T', 'U', 'V', 'W', 'X', 'Y', 'Z',
        'a', 'b', 'c', 'd', 'e', 'f', 'g', 'h', 'i', 'j', 'k', 'l', 'm',
        'n', 'o', 'p', 'q', 'r', 's', 't', 'u', 'v', 'w', 'x', 'y', 'z',
        '0', '1', '2', '3', '4', '5', '6', '7', '8', '9', '+', '/',
    ]
}

/// The base64 character of a 6-bit value.
pub open spec fn base64_char(v: int) -> char {
    base64_alphabet()[v]
}

/// The base64 alphabet by character code: `A`-`Z` for 0 to 25, `a`-`z` for 26 to 51,
/// `0`-`9` for 52 to 61, then `+` and `/`.
pub proof fn lemma_base64_alphabet(v: int)
    requires
        0 <= v < 64,
    ensures
        v < 26 ==> base64_char(v) as u32 == 0x41 + v,
        26 <= v < 52 ==> base64_char(v) as u32 == 0x61 + (v - 26),
        52 <= v < 62 ==> base64_char(v) as u32 == 0x30 + (v - 52),
        v == 62 ==> base64_char(v) == '+',
        v == 63 ==> base64_char(v) == '/',
{
    assert(base64_alphabet().len() == 64);
}

/// The standard base64 text of some bytes, padded with `=`: every group of three
/// bytes becomes four characters of six bits each; a last group of one or two bytes
/// is filled with zero bits and completed with `==` or `=`.
pub open spec fn base64_standard(data: Seq<u8>) -> Seq<char>
    decreases data.len(),
{
    let b0 = data[0] as int;
    let b1 = data[1] as int;
    let b2 = data[2] as int;
    if data.len() == 0 {
        seq![]
    } else if data.len() == 1 {
        seq![base64_char(b0 / 4), base64_char((b0 % 4) * 16), '=', '=']
    } else if data.len() == 2 {
        seq![base64_char(b0 / 4), base64_char((b0 % 4) * 16 + b1 / 16), base64_char((b1 % 16) * 4), '=']
    } else {
        seq![
            base64_char(b0 / 4),
            base64_char((b0 % 4) * 16 + b1 / 16),
            base64_char((b1 % 16) * 4 + b2 / 64),
            base64_char(b2 % 64),
        ] + base64_standard(data.subrange(3, data.len() as int))
    }
}

/// The base64 text of `n` bytes has four characters for every started group of three.
pub proof fn lemma_base64_standard_len(data: Seq<u8>)
    ensures
        base64_standard(data).len() == base64_len(data.len() as int),
    decreases data.len(),
{
    if data.len() >= 3 {
        lemma_base64_standard_len(data.subrange(3, data.len() as int));
    }
}

/// The bytes of an RGBA image resized with the nearest-neighbour filter.
pub uninterp spec fn nearest_resized(data: Seq<u8>, width: u32, height: u32, new_width: u32, new_height: u32) -> Seq<u8>;

/// Length of the padded base64 text of `n` bytes: four characters per started group of three.
pub open spec fn base64_len(n: int) -> int {
    4 * ((n + 2) / 3)
}

/// Whether `image::ImageBuffer::from_raw` accepts a buffer of `len` bytes for a
/// `width` by `height` RGBA image: it computes `4 * width`, then that times `height`,
/// each without overflowing `usize`, and needs at least that many bytes.
pub open spec fn rgba_buffer_fits(width: u32, height: u32, len: int) -> bool {
    4 * width <= usize::MAX && 4 * width * height <= len
}

/// `image::ImageBuffer::from_raw` for RGBA pixels: an image holding `buf` exactly when
/// `rgba_buffer_fits` holds.
#[verifier::external_body]
pub(crate) fn rgba_image_from_raw(width: u32, height: u32, buf: Vec<u8>) -> (img: Option<RgbaImage>)
    ensures
        img is Some <==> rgba_buffer_fits(width, height, buf@.len() as int),
        img matches Some(i) ==> {
            &&& rgba_image_bytes(i) == buf@
            &&& rgba_image_width(i) == width
            &&& rgba_image_height(i) == height
        },
{
    ImageBuffer::from_raw(width, height, buf).map(|buffer| RgbaImage { buffer })
}

/// `ImageBuffer::as_raw`: the buffer the image holds.
#[verifier::external_body]
pub(crate) fn rgba_image_as_raw(img: &RgbaImage) -> (raw: &Vec<u8>)
    ensures
        raw@ == rgba_image_bytes(*img),
{
    img.buffer.as_raw()
}

/// `ImageBuffer::into_raw`: the buffer the image holds, taken out of it.
#[verifier::external_body]
pub(crate) fn rgba_image_into_raw(img: RgbaImage) -> (raw: Vec<u8>)
    ensures
        raw@ == rgba_image_bytes(img),
{
    img.buffer.into_raw()
}

/// `image::imageops::resize` with `FilterType::Nearest`: a `new_width` by
/// `new_height` image whose bytes are the resized pixels. It allocates (through
/// `ImageBuffer::new`) buffers of `4 * width * new_height` and `4 * new_width *
/// new_height` samples, computing `4 * width` and `4 * new_width` first; each must
/// fit in `usize`.
#[verifier::external_body]
pub(crate) fn rgba_resize_nearest(img: &RgbaImage, new_width: u32, new_height: u32) -> (out: RgbaImage)
    requires
        4 * rgba_image_width(*img) <= usize::MAX,
        4 * rgba_image_width(*img) * new_height <= usize::MAX,
        4 * new_width <= usize::MAX,
        4 * new_width * new_height <= usize::MAX,
    ensures
        rgba_image_width(out) == new_width,
        rgba_image_height(out) == new_height,
        rgba_image_bytes(out).len() == 4 * new_width * new_height,
        rgba_image_bytes(out) == nearest_resized(
            rgba_image_bytes(*img),
            rgba_image_width(*img),
            rgba_image_height(*img),
            new_width,
            new_height,
        ),
{
    RgbaImage { buffer: image::imageops::resize(&img.buffer, new_width, new_height, image::imageops::FilterType::Nearest) }
}

/// `PngEncoder::write_image` with `ExtendedColorType::Rgba8`, writing into a new
/// `Vec`: the encoded file, or the encoder's error. It asserts that `data` holds
/// exactly `width * height * 4` bytes.
#[verifier::external_body]
pub(crate) fn encode_png_rgba8(data: &[u8], width: u32, height: u32) -> (res: Result<Vec<u8>, ImageError>)
    requires
        data@.len() == width * height * 4,
    ensures
        res is Ok <==> png_rgba8(data@, width, height) is Some,
        res matches Ok(png) ==> png_rgba8(data@, width, height) == Some(png@),
{
    let mut png: Vec<u8> = Vec::new();
    image::codecs::png::PngEncoder::new(&mut png)
        .write_image(data, width, height, image::ExtendedColorType::Rgba8)
        .map(|_| png)
}

/// `base64::engine::general_purpose::STANDARD.encode`: the standard base64 text of
/// `data` with padding. It panics when the length of that text does not fit in `usize`.
#[verifier::external_body]
pub(crate) fn base64_encode(data: &[u8]) -> (text: String)
    requires
        base64_len(data@.len() as int) <= usize::MAX,
    ensures
        text@ == base64_standard(data@),
{
    base64::engine::general_purpose::STANDARD.encode(data)
}

} // verus!
