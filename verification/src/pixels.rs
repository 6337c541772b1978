use vstd::prelude::*;

verus! {

/// Index of channel `ch` of pixel `(row, col)` in a row-major RGBA buffer `width` pixels wide.
pub open spec fn pixel_index(width: int, row: int, col: int, ch: int) -> int {
    (row * width + col) * 4 + ch
}

/// Distinct pixels and channels of a `width`-wide RGBA buffer have distinct indices.
pub proof fn lemma_pixel_index_injective(width: int, r1: int, c1: int, ch1: int, r2: int, c2: int, ch2: int)
    requires
        0 <= c1 < width,
        0 <= c2 < width,
        0 <= ch1 < 4,
        0 <= ch2 < 4,
        0 <= r1,
        0 <= r2,
        pixel_index(width, r1, c1, ch1) == pixel_index(width, r2, c2, ch2),
    ensures
        r1 == r2 && c1 == c2 && ch1 == ch2,
{
    let p1 = r1 * width + c1;
    let p2 = r2 * width + c2;
    assert(p1 == p2 && ch1 == ch2);
    if r1 < r2 {
        assert(r1 * width + width <= r2 * width) by (nonlinear_arith)
            requires r1 < r2, width > 0;
    } else if r2 < r1 {
        assert(r2 * width + width <= r1 * width) by (nonlinear_arith)
            requires r2 < r1, width > 0;
    }
}

/// Every pixel of a `width` by `height` image lies inside its `width * height * 4` bytes.
pub proof fn lemma_pixel_index_bounds(width: int, height: int, row: int, col: int, ch: int)
    requires
        0 <= row < height,
        0 <= col < width,
        0 <= ch < 4,
    ensures
        0 <= pixel_index(width, row, col, ch) < width * height * 4,
        pixel_index(width, row, col, 0) + 3 < width * height * 4,
{
    assert(row * width + col < width * height) by (nonlinear_arith)
        requires 0 <= row < height, 0 <= col < width;
    assert(0 <= row * width) by (nonlinear_arith)
        requires 0 <= row, 0 <= width;
    assert(width * height * 4 == (width * height) * 4);
}

/// An X image depth whose pixels are neither 24 nor 32 bits wide.
#[derive(Debug, Clone, Copy, PartialEq, Eq)]
pub struct UnsupportedBpp {
    pub bpp: u8,
}

/// The smaller of two integers.
pub open spec fn min_int(a: int, b: int) -> int {
    if a <= b { a } else { b }
}

/// Bytes per pixel of a supported X image layout.
pub open spec fn x11_pixel_bytes(bpp: u8) -> int {
    if bpp == 32 { 4 } else { 3 }
}

/// Bytes per row of an X image `cap_w` pixels wide: 32-bit pixels are packed,
/// 24-bit rows are padded to the scanline pad (in bits).
pub open spec fn x11_row_bytes(bpp: u8, cap_w: u16, scanline_pad: u8) -> int {
    if bpp == 32 {
        cap_w * 4
    } else {
        (cap_w * 24 + scanline_pad - 1) / (scanline_pad as int) * (scanline_pad / 8)
    }
}

/// Offset in the X image of the first byte of pixel `(row, col)`.
pub open spec fn x11_pixel_offset(bpp: u8, cap_w: u16, scanline_pad: u8, row: int, col: int) -> int {
    row * x11_row_bytes(bpp, cap_w, scanline_pad) + col * x11_pixel_bytes(bpp)
}

/// Channel `ch` (red, green, blue, alpha) of pixel `(row, col)` of the RGBA image made
/// from an X image in blue-green-red order: a pixel is copied when it lies in both the
/// captured (`cap_w` by `cap_h`) and the requested (`w` by `h`) rectangles and its bytes
/// lie in `data`; it is then opaque. Every other byte stays 0.
pub open spec fn x11_rgba_channel(
    data: Seq<u8>,
    bpp: u8,
    cap_w: u16,
    cap_h: u16,
    w: u32,
    h: u32,
    scanline_pad: u8,
    row: int,
    col: int,
    ch: int,
) -> u8 {
    let s = x11_pixel_offset(bpp, cap_w, scanline_pad, row, col);
    if row < min_int(cap_h as int, h as int) && col < min_int(cap_w as int, w as int)
        && s + x11_pixel_bytes(bpp) - 1 < data.len() {
        if ch == 0 {
            data[s + 2]
        } else if ch == 1 {
            data[s + 1]
        } else if ch == 2 {
            data[s]
        } else {
            255
        }
    } else {
        0
    }
}

proof fn lemma_row_bytes_bound(bpp: u8, cap_w: u16, scanline_pad: u8)
    requires
        bpp == 32 || bpp == 24,
        bpp == 24 ==> scanline_pad > 0,
    ensures
        0 <= x11_row_bytes(bpp, cap_w, scanline_pad) <= 50_000_000,
{
    if bpp == 24 {
        let x = cap_w * 24 + scanline_pad - 1;
        let p = scanline_pad as int;
        assert(0 <= x / p <= x) by (nonlinear_arith)
            requires 0 <= x, p >= 1;
        assert(0 <= (x / p) * (p / 8) <= x * 31) by (nonlinear_arith)
            requires 0 <= x / p <= x, 0 <= p / 8 <= 31;
    }
}

/// Converts the pixels of an X image in blue-green-red order (32 bits per pixel, or
/// 24 bits with rows padded to `scanline_pad` bits) into a `w` by `h` RGBA buffer.
/// Any other pixel size is refused.
pub fn x11_image_to_rgba(
    data: &[u8],
    bpp: u8,
    cap_w: u16,
    cap_h: u16,
    w: u32,
    h: u32,
    scanline_pad: u8,
) -> (res: Result<Vec<u8>, UnsupportedBpp>)
    requires
        w * h * 4 <= usize::MAX,
        bpp == 24 ==> scanline_pad > 0,
    ensures
        bpp != 32 && bpp != 24 ==> res == Err::<Vec<u8>, UnsupportedBpp>(UnsupportedBpp { bpp }),
        bpp == 32 || bpp == 24 ==> res is Ok,
        res matches Ok(out) ==> {
            &&& out@.len() == w * h * 4
            &&& forall|row: int, col: int, ch: int|
                0 <= row < h && 0 <= col < w && 0 <= ch < 4 ==> #[trigger] out@[pixel_index(w as int, row, col, ch)]
                    == x11_rgba_channel(data@, bpp, cap_w, cap_h, w, h, scanline_pad, row, col, ch)
            &&& bpp == 32 ==> forall|row: int, col: int|
                0 <= row < h && 0 <= col < w ==> {
                    let s = 4 * (row * cap_w + col);
                    if row < cap_h && col < cap_w && s + 4 <= data@.len() {
                        &&& #[trigger] out@[pixel_index(w as int, row, col, 0)] == data@[s + 2]
                        &&& out@[pixel_index(w as int, row, col, 1)] == data@[s + 1]
                        &&& out@[pixel_index(w as int, row, col, 2)] == data@[s]
                        &&& out@[pixel_index(w as int, row, col, 3)] == 255
                    } else {
                        &&& out@[pixel_index(w as int, row, col, 0)] == 0
                        &&& out@[pixel_index(w as int, row, col, 1)] == 0
                        &&& out@[pixel_index(w as int, row, col, 2)] == 0
                        &&& out@[pixel_index(w as int, row, col, 3)] == 0
                    }
                }
        },
{
    assert(w * h * 4 == (w as int) * (h as int) * 4);
    assert((w as usize) * (h as usize) <= usize::MAX) by (nonlinear_arith)
        requires (w as int) * (h as int) * 4 <= usize::MAX, w >= 0, h >= 0;
    let total: usize = (w as usize) * (h as usize) * 4;
    let mut rgba: Vec<u8> = vec![0u8; total];
    assert forall|i: int| 0 <= i < total implies rgba@[i] == 0u8 by {
        assert(cloned(0u8, rgba@[i]));
    }
    assert forall|r: int, c: int, ch: int|
        0 <= r < h && 0 <= c < w && 0 <= ch < 4 implies #[trigger] rgba@[pixel_index(w as int, r, c, ch)] == 0u8 by {
        lemma_pixel_index_bounds(w as int, h as int, r, c, ch);
    }
    if bpp != 32 && bpp != 24 {
        return Err(UnsupportedBpp { bpp });
    }
    proof {
        lemma_row_bytes_bound(bpp, cap_w, scanline_pad);
    }
    let row_bytes: u64 = if bpp == 32 {
        cap_w as u64 * 4
    } else {
        let pad = scanline_pad as u64;
        let row_bits = cap_w as u64 * 24;
        (row_bits + pad - 1) / pad * (pad / 8)
    };
    let pixel_bytes: u64 = if bpp == 32 { 4 } else { 3 };
    let last: u64 = pixel_bytes - 1;
    let rows: u32 = if (cap_h as u32) < h { cap_h as u32 } else { h };
    let cols: u32 = if (cap_w as u32) < w { cap_w as u32 } else { w };
    let data_len: u64 = data.len() as u64;
    let ghost wi = w as int;
    let mut row: u32 = 0;
    while row < rows
        invariant
            rgba@.len() == total,
            total == w * h * 4,
            bpp == 32 || bpp == 24,
            row_bytes == x11_row_bytes(bpp, cap_w, scanline_pad),
            row_bytes <= 50_000_000,
            pixel_bytes == x11_pixel_bytes(bpp),
            last == pixel_bytes - 1,
            rows == min_int(cap_h as int, h as int),
            cols == min_int(cap_w as int, w as int),
            data_len == data@.len(),
            wi == w,
            0 <= row <= rows,
            forall|r: int, c: int, ch: int|
                0 <= r < h && 0 <= c < w && 0 <= ch < 4 ==> #[trigger] rgba@[pixel_index(wi, r, c, ch)]
                    == if r < row {
                        x11_rgba_channel(data@, bpp, cap_w, cap_h, w, h, scanline_pad, r, c, ch)
                    } else {
                        0
                    },
        decreases rows - row,
    {
        let mut col: u32 = 0;
        while col < cols
            invariant
                rgba@.len() == total,
                total == w * h * 4,
                bpp == 32 || bpp == 24,
                row_bytes == x11_row_bytes(bpp, cap_w, scanline_pad),
                row_bytes <= 50_000_000,
                pixel_bytes == x11_pixel_bytes(bpp),
                last == pixel_bytes - 1,
                rows == min_int(cap_h as int, h as int),
                cols == min_int(cap_w as int, w as int),
                data_len == data@.len(),
                wi == w,
                0 <= row < rows,
                0 <= col <= cols,
                forall|r: int, c: int, ch: int|
                    0 <= r < h && 0 <= c < w && 0 <= ch < 4 ==> #[trigger] rgba@[pixel_index(wi, r, c, ch)]
                        == if r < row || (r == row && c < col) {
                            x11_rgba_channel(data@, bpp, cap_w, cap_h, w, h, scanline_pad, r, c, ch)
                        } else {
                            0
                        },
            decreases cols - col,
        {
            assert(row as u64 * row_bytes <= 65535 * 50_000_000) by (nonlinear_arith)
                requires row <= 65535, row_bytes <= 50_000_000;
            let s: u64 = row as u64 * row_bytes + col as u64 * pixel_bytes;
            assert(s == x11_pixel_offset(bpp, cap_w, scanline_pad, row as int, col as int));
            proof {
                lemma_pixel_index_bounds(wi, h as int, row as int, col as int, 0);
            }
            let d: usize = ((row as usize) * (w as usize) + col as usize) * 4;
            assert(d == pixel_index(wi, row as int, col as int, 0));
            if s + last < data_len {
                let red = data[(s + 2) as usize];
                let green = data[(s + 1) as usize];
                let blue = data[s as usize];
                let ghost before = rgba@;
                rgba.set(d, red);
                rgba.set(d + 1, green);
                rgba.set(d + 2, blue);
                rgba.set(d + 3, 255);
                assert forall|r: int, c: int, ch: int|
                    0 <= r < h && 0 <= c < w && 0 <= ch < 4 implies #[trigger] rgba@[pixel_index(wi, r, c, ch)]
                        == if r < row || (r == row && c < col + 1) {
                            x11_rgba_channel(data@, bpp, cap_w, cap_h, w, h, scanline_pad, r, c, ch)
                        } else {
                            0
                        } by {
                    let k = pixel_index(wi, r, c, ch);
                    if r == row && c == col {
                        assert(k == d + ch);
                    } else {
                        lemma_pixel_index_bounds(wi, h as int, r, c, ch);
                        if d <= k < d + 4 {
                            lemma_pixel_index_injective(wi, r, c, ch, row as int, col as int, k - d);
                        }
                        assert(rgba@[k] == before[k]);
                    }
                }
            } else {
                assert forall|r: int, c: int, ch: int|
                    0 <= r < h && 0 <= c < w && 0 <= ch < 4 implies #[trigger] rgba@[pixel_index(wi, r, c, ch)]
                        == if r < row || (r == row && c < col + 1) {
                            x11_rgba_channel(data@, bpp, cap_w, cap_h, w, h, scanline_pad, r, c, ch)
                        } else {
                            0
                        } by {
                }
            }
            col = col + 1;
        }
        assert forall|r: int, c: int, ch: int|
            0 <= r < h && 0 <= c < w && 0 <= ch < 4 implies #[trigger] rgba@[pixel_index(wi, r, c, ch)]
                == if r < row + 1 {
                    x11_rgba_channel(data@, bpp, cap_w, cap_h, w, h, scanline_pad, r, c, ch)
                } else {
                    0
                } by {
        }
        row = row + 1;
    }
    assert forall|r: int, c: int, ch: int|
        0 <= r < h && 0 <= c < w && 0 <= ch < 4 implies #[trigger] rgba@[pixel_index(wi, r, c, ch)]
            == x11_rgba_channel(data@, bpp, cap_w, cap_h, w, h, scanline_pad, r, c, ch) by {
    }
    assert forall|r: int, c: int| 0 <= r < h && 0 <= c < w implies ({
        let s = 4 * (r * cap_w + c);
        bpp == 32 ==> if r < cap_h && c < cap_w && s + 4 <= data@.len() {
            &&& #[trigger] rgba@[pixel_index(w as int, r, c, 0)] == data@[s + 2]
            &&& rgba@[pixel_index(w as int, r, c, 1)] == data@[s + 1]
            &&& rgba@[pixel_index(w as int, r, c, 2)] == data@[s]
            &&& rgba@[pixel_index(w as int, r, c, 3)] == 255
        } else {
            &&& rgba@[pixel_index(w as int, r, c, 0)] == 0
            &&& rgba@[pixel_index(w as int, r, c, 1)] == 0
            &&& rgba@[pixel_index(w as int, r, c, 2)] == 0
            &&& rgba@[pixel_index(w as int, r, c, 3)] == 0
        }
    }) by {
        lemma_x11_pixel_source(data@, bpp, cap_w, cap_h, w, h, scanline_pad, r, c);
        assert(rgba@[pixel_index(wi, r, c, 0)] == x11_rgba_channel(data@, bpp, cap_w, cap_h, w, h, scanline_pad, r, c, 0));
        assert(rgba@[pixel_index(wi, r, c, 1)] == x11_rgba_channel(data@, bpp, cap_w, cap_h, w, h, scanline_pad, r, c, 1));
        assert(rgba@[pixel_index(wi, r, c, 2)] == x11_rgba_channel(data@, bpp, cap_w, cap_h, w, h, scanline_pad, r, c, 2));
        assert(rgba@[pixel_index(wi, r, c, 3)] == x11_rgba_channel(data@, bpp, cap_w, cap_h, w, h, scanline_pad, r, c, 3));
    }
    Ok(rgba)
}

/// Where each RGBA pixel comes from in the X image: rows of the captured image are
/// `cap_w` pixels wide (4 bytes a pixel at 32 bits; at 24 bits, 3 bytes a pixel with
/// each row padded to a multiple of `scanline_pad` bits), whatever width was requested.
/// Pixel `(row, col)` inside both the captured and the requested rectangles, whose
/// bytes all lie in `data`, is its blue, green, red bytes reversed and made opaque;
/// every other pixel is transparent black.
pub proof fn lemma_x11_pixel_source(
    data: Seq<u8>,
    bpp: u8,
    cap_w: u16,
    cap_h: u16,
    w: u32,
    h: u32,
    scanline_pad: u8,
    row: int,
    col: int,
)
    requires
        bpp == 32 || (bpp == 24 && scanline_pad > 0),
        0 <= row,
        0 <= col,
    ensures
        ({
            let size: int = if bpp == 32 { 4 } else { 3 };
            let s: int = if bpp == 32 {
                4 * (row * cap_w + col)
            } else {
                row * ((cap_w * 24 + scanline_pad - 1) / (scanline_pad as int) * (scanline_pad / 8)) + 3 * col
            };
            if row < cap_h && row < h && col < cap_w && col < w && s + size <= data.len() {
                &&& x11_rgba_channel(data, bpp, cap_w, cap_h, w, h, scanline_pad, row, col, 0) == data[s + 2]
                &&& x11_rgba_channel(data, bpp, cap_w, cap_h, w, h, scanline_pad, row, col, 1) == data[s + 1]
                &&& x11_rgba_channel(data, bpp, cap_w, cap_h, w, h, scanline_pad, row, col, 2) == data[s]
                &&& x11_rgba_channel(data, bpp, cap_w, cap_h, w, h, scanline_pad, row, col, 3) == 255
            } else {
                &&& x11_rgba_channel(data, bpp, cap_w, cap_h, w, h, scanline_pad, row, col, 0) == 0
                &&& x11_rgba_channel(data, bpp, cap_w, cap_h, w, h, scanline_pad, row, col, 1) == 0
                &&& x11_rgba_channel(data, bpp, cap_w, cap_h, w, h, scanline_pad, row, col, 2) == 0
                &&& x11_rgba_channel(data, bpp, cap_w, cap_h, w, h, scanline_pad, row, col, 3) == 0
            }
        }),
{
    if bpp == 32 {
        assert(4 * (row * cap_w + col) == row * (cap_w * 4) + col * 4) by (nonlinear_arith);
    }
}

/// The requested size only crops: a pixel inside two requested rectangles has the same
/// color in both results, so where the X image's bytes are read from never depends on
/// the requested width or height.
pub proof fn lemma_x11_requested_size_only_crops(
    data: Seq<u8>,
    bpp: u8,
    cap_w: u16,
    cap_h: u16,
    w1: u32,
    h1: u32,
    w2: u32,
    h2: u32,
    scanline_pad: u8,
    row: int,
    col: int,
    ch: int,
)
    requires
        bpp == 32 || (bpp == 24 && scanline_pad > 0),
        0 <= row < h1,
        row < h2,
        0 <= col < w1,
        col < w2,
    ensures
        x11_rgba_channel(data, bpp, cap_w, cap_h, w1, h1, scanline_pad, row, col, ch)
            == x11_rgba_channel(data, bpp, cap_w, cap_h, w2, h2, scanline_pad, row, col, ch),
{
    lemma_x11_pixel_source(data, bpp, cap_w, cap_h, w1, h1, scanline_pad, row, col);
    lemma_x11_pixel_source(data, bpp, cap_w, cap_h, w2, h2, scanline_pad, row, col);
}

/// A pixmap format an X server announces: images of `depth` store `bits_per_pixel` bits per pixel.
#[derive(Debug, Clone, Copy, PartialEq, Eq)]
pub struct PixmapFormat {
    pub depth: u8,
    pub bits_per_pixel: u8,
}

/// Bits per pixel of the first format of the given depth; 32 when none has it.
pub open spec fn bits_per_pixel_for(formats: Seq<PixmapFormat>, depth: u8) -> u8
    decreases formats.len(),
{
    if formats.len() == 0 {
        32
    } else if formats[0].depth == depth {
        formats[0].bits_per_pixel
    } else {
        bits_per_pixel_for(formats.drop_first(), depth)
    }
}

/// The bits per pixel of a depth come from the first format listed with that depth,
/// and are 32 when no format has it.
pub proof fn lemma_bits_per_pixel_first_match(formats: Seq<PixmapFormat>, depth: u8)
    ensures
        (forall|i: int| 0 <= i < formats.len() ==> #[trigger] formats[i].depth != depth) ==> bits_per_pixel_for(
            formats,
            depth,
        ) == 32,
        forall|i: int|
            0 <= i < formats.len() && #[trigger] formats[i].depth == depth && (forall|j: int|
                0 <= j < i ==> formats[j].depth != depth) ==> bits_per_pixel_for(formats, depth)
                == formats[i].bits_per_pixel,
    decreases formats.len(),
{
    if formats.len() > 0 {
        lemma_bits_per_pixel_first_match(formats.drop_first(), depth);
        assert forall|i: int|
            0 <= i < formats.len() && #[trigger] formats[i].depth == depth && (forall|j: int|
                0 <= j < i ==> formats[j].depth != depth) implies bits_per_pixel_for(formats, depth)
                == formats[i].bits_per_pixel by {
            if i > 0 {
                assert(formats[0].depth != depth);
                assert(formats.drop_first()[i - 1] == formats[i]);
                assert forall|j: int| 0 <= j < i - 1 implies formats.drop_first()[j].depth != depth by {
                    assert(formats.drop_first()[j] == formats[j + 1]);
                }
            }
        }
        if forall|i: int| 0 <= i < formats.len() ==> #[trigger] formats[i].depth != depth {
            assert(formats[0].depth != depth);
            assert forall|i: int| 0 <= i < formats.drop_first().len() implies #[trigger] formats.drop_first()[i].depth
                != depth by {
                assert(formats.drop_first()[i] == formats[i + 1]);
            }
        }
    }
}

/// Looks up how many bits a pixel of an image of `depth` takes, in the server's
/// pixmap formats; 32 when the depth is not listed.
pub fn pixmap_bits_per_pixel(formats: &[PixmapFormat], depth: u8) -> (bpp: u8)
    ensures
        bpp == bits_per_pixel_for(formats@, depth),
        (forall|i: int| 0 <= i < formats@.len() ==> #[trigger] formats@[i].depth != depth) ==> bpp == 32,
        forall|i: int|
            0 <= i < formats@.len() && #[trigger] formats@[i].depth == depth && (forall|j: int|
                0 <= j < i ==> formats@[j].depth != depth) ==> bpp == formats@[i].bits_per_pixel,
{
    proof {
        lemma_bits_per_pixel_first_match(formats@, depth);
    }
    let n = formats.len();
    let mut i: usize = 0;
    assert(formats@.skip(0) =~= formats@);
    while i < n
        invariant
            n == formats@.len(),
            0 <= i <= n,
            bits_per_pixel_for(formats@, depth) == bits_per_pixel_for(formats@.skip(i as int), depth),
        decreases n - i,
    {
        assert(formats@.skip(i as int).drop_first() =~= formats@.skip(i + 1));
        if formats[i].depth == depth {
            proof {
                lemma_bits_per_pixel_first_match(formats@, depth);
            }
            return formats[i].bits_per_pixel;
        }
        i = i + 1;
    }
    assert(formats@.skip(n as int).len() == 0);
    32
}

/// A rectangle of the screen to read.
#[derive(Debug, Clone, Copy, PartialEq, Eq)]
pub struct CaptureRect {
    pub x: i32,
    pub y: i32,
    pub width: u16,
    pub height: u16,
}

/// An origin coordinate moved onto a screen of `screen` pixels: `max(v, 0)`, then at most `screen - 1`.
pub open spec fn clamp_origin(v: int, screen: int) -> int {
    min_int(if v < 0 { 0 } else { v }, screen - 1)
}

/// The extent read from `origin` on a screen of `screen` pixels for a requested extent
/// `len`: `min(len, screen - origin)`, at least 1. A request above `i32::MAX` turns
/// negative when read as `i32`, so it yields 1.
pub open spec fn clip_extent(len: u32, screen: int, origin: int) -> int {
    if len > i32::MAX {
        1
    } else {
        let m = min_int(len as int, screen - origin);
        if m < 1 { 1 } else { m }
    }
}

fn clamp_origin_exec(v: i32, screen: i32) -> (r: i32)
    requires
        0 <= screen <= 65535,
    ensures
        r == clamp_origin(v as int, screen as int),
{
    let lo = if v < 0 { 0 } else { v };
    if lo < screen - 1 { lo } else { screen - 1 }
}

fn clip_extent_exec(len: u32, screen: i32, origin: i32) -> (r: u16)
    requires
        0 <= screen <= 65535,
        origin == clamp_origin(origin as int, screen as int),
        origin == -1 || 0 <= origin < screen,
        screen == 0 ==> origin == -1,
    ensures
        r == clip_extent(len, screen as int, origin as int),
{
    if len > 0x7fff_ffff {
        return 1;
    }
    let avail = screen - origin;
    let m: i32 = if (len as i32) < avail { len as i32 } else { avail };
    if m < 1 { 1 } else { m as u16 }
}

/// Clips the rectangle at `(x, y)`, `w` by `h` pixels, to a screen of
/// `screen_w` by `screen_h` pixels: the origin moves onto the screen and the size
/// shrinks to what is left of the screen from there, keeping at least one pixel.
/// On a screen that is not empty, the result lies on the screen.
pub fn clip_to_screen(x: i32, y: i32, w: u32, h: u32, screen_w: u16, screen_h: u16) -> (rect: CaptureRect)
    ensures
        rect.x == clamp_origin(x as int, screen_w as int),
        rect.y == clamp_origin(y as int, screen_h as int),
        rect.width == clip_extent(w, screen_w as int, rect.x as int),
        rect.height == clip_extent(h, screen_h as int, rect.y as int),
        screen_w > 0 ==> 0 <= rect.x && rect.x + rect.width <= screen_w && rect.width >= 1,
        screen_h > 0 ==> 0 <= rect.y && rect.y + rect.height <= screen_h && rect.height >= 1,
        screen_w > 0 && 1 <= w <= i32::MAX ==> rect.width <= w,
        screen_h > 0 && 1 <= h <= i32::MAX ==> rect.height <= h,
        screen_w > 0 && 0 <= x < screen_w ==> rect.x == x,
        screen_w > 0 && x < 0 ==> rect.x == 0,
        screen_w > 0 && x >= screen_w ==> rect.x == screen_w - 1,
        screen_w == 0 ==> rect.x == -1 && rect.width == 1,
        w == 0 || w > i32::MAX ==> rect.width == 1,
        screen_w > 0 && 1 <= w <= i32::MAX && rect.x + w <= screen_w ==> rect.width == w,
        screen_w > 0 && 1 <= w <= i32::MAX && rect.x + w > screen_w ==> rect.width == screen_w - rect.x,
        screen_h > 0 && 0 <= y < screen_h ==> rect.y == y,
        screen_h > 0 && y < 0 ==> rect.y == 0,
        screen_h > 0 && y >= screen_h ==> rect.y == screen_h - 1,
        screen_h == 0 ==> rect.y == -1 && rect.height == 1,
        h == 0 || h > i32::MAX ==> rect.height == 1,
        screen_h > 0 && 1 <= h <= i32::MAX && rect.y + h <= screen_h ==> rect.height == h,
        screen_h > 0 && 1 <= h <= i32::MAX && rect.y + h > screen_h ==> rect.height == screen_h - rect.y,
{
    let sw = screen_w as i32;
    let sh = screen_h as i32;
    let x0 = clamp_origin_exec(x, sw);
    let y0 = clamp_origin_exec(y, sh);
    let cap_w = clip_extent_exec(w, sw, x0);
    let cap_h = clip_extent_exec(h, sh, y0);
    CaptureRect { x: x0, y: y0, width: cap_w, height: cap_h }
}

/// A buffer of 4-byte pixels with the first and third byte of every whole pixel
/// exchanged (blue-green-red-alpha to red-green-blue-alpha and back); a trailing
/// partial pixel is kept as it is.
pub open spec fn red_blue_swapped(s: Seq<u8>) -> Seq<u8> {
    Seq::new(
        s.len(),
        |k: int|
            if k < s.len() / 4 * 4 {
                if k % 4 == 0 {
                    s[k + 2]
                } else if k % 4 == 2 {
                    s[k - 2]
                } else {
                    s[k]
                }
            } else {
                s[k]
            },
    )
}

/// Turns blue-green-red-alpha pixels into red-green-blue-alpha ones in place.
pub fn bgra_to_rgba(buf: &mut Vec<u8>)
    ensures
        final(buf)@ == red_blue_swapped(old(buf)@),
        final(buf)@.len() == old(buf)@.len(),
        forall|i: int| 0 <= i && 4 * i + 4 <= old(buf)@.len() ==> {
            &&& #[trigger] final(buf)@[4 * i] == old(buf)@[4 * i + 2]
            &&& final(buf)@[4 * i + 1] == old(buf)@[4 * i + 1]
            &&& final(buf)@[4 * i + 2] == old(buf)@[4 * i]
            &&& final(buf)@[4 * i + 3] == old(buf)@[4 * i + 3]
        },
        forall|k: int| old(buf)@.len() - old(buf)@.len() % 4 <= k < old(buf)@.len() ==> #[trigger] final(buf)@[k]
            == old(buf)@[k],
{
    let n = buf.len();
    let chunks = n / 4;
    let ghost orig = buf@;
    let mut i: usize = 0;
    while i < chunks
        invariant
            n == orig.len(),
            chunks == n / 4,
            buf@.len() == n,
            0 <= i <= chunks,
            forall|k: int| 0 <= k < n ==> #[trigger] buf@[k] == if k < 4 * i {
                red_blue_swapped(orig)[k]
            } else {
                orig[k]
            },
        decreases chunks - i,
    {
        let base = 4 * i;
        let first = buf[base];
        let third = buf[base + 2];
        buf.set(base, third);
        buf.set(base + 2, first);
        i = i + 1;
    }
    assert(buf@ =~= red_blue_swapped(orig));
    proof {
        lemma_red_blue_swap_pixels(orig);
    }
}

/// Every whole 4-byte pixel, the last one included, has its first and third bytes
/// exchanged and its second and fourth kept; the bytes of a trailing partial pixel
/// are kept.
pub proof fn lemma_red_blue_swap_pixels(s: Seq<u8>)
    ensures
        red_blue_swapped(s).len() == s.len(),
        forall|i: int| 0 <= i && 4 * i + 4 <= s.len() ==> {
            &&& #[trigger] red_blue_swapped(s)[4 * i] == s[4 * i + 2]
            &&& red_blue_swapped(s)[4 * i + 1] == s[4 * i + 1]
            &&& red_blue_swapped(s)[4 * i + 2] == s[4 * i]
            &&& red_blue_swapped(s)[4 * i + 3] == s[4 * i + 3]
        },
        forall|k: int| s.len() - s.len() % 4 <= k < s.len() ==> #[trigger] red_blue_swapped(s)[k] == s[k],
{
    assert forall|i: int| 0 <= i && 4 * i + 4 <= s.len() implies {
        &&& #[trigger] red_blue_swapped(s)[4 * i] == s[4 * i + 2]
        &&& red_blue_swapped(s)[4 * i + 1] == s[4 * i + 1]
        &&& red_blue_swapped(s)[4 * i + 2] == s[4 * i]
        &&& red_blue_swapped(s)[4 * i + 3] == s[4 * i + 3]
    } by {
        assert(4 * i + 3 < s.len() / 4 * 4);
    }
}

/// Exchanging red and blue twice gives the pixels back.
pub proof fn lemma_red_blue_swap_involution(s: Seq<u8>)
    ensures
        red_blue_swapped(red_blue_swapped(s)) == s,
{
    assert(red_blue_swapped(red_blue_swapped(s)) =~= s);
}

} // verus!
