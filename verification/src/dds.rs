//! DDS images as the game's icon sheets use them: DXT1, DXT3 and DXT5 block
//! compression, and uncompressed 32-bit and 16-bit pixels with channel masks,
//! decoded to tightly packed top-down RGBA.
use vstd::prelude::*;
use vstd::std_specs::bits::{
    axiom_u32_leading_zeros, axiom_u32_trailing_zeros, u32_leading_zeros, u32_trailing_zeros,
};

use crate::bytes::{le_u16, le_u32, read_u16_le, read_u32_le};

verus! {

/// An image as RGBA bytes, row after row from the top.
#[derive(Debug)]
pub struct DecodedImage {
    pub width: u32,
    pub height: u32,
    /// Tightly packed RGBA8, row-major, top-down.
    pub rgba: Vec<u8>,
}

/// Cropping is defined: the source rows it copies lie in the pixel data and
/// their offsets fit in 32 bits.
pub open spec fn crop_defined(img: &DecodedImage, x: u32, y: u32, w: u32, h: u32) -> bool {
    (x + w <= img.width && y + h <= img.height && h > 0) ==> {
        &&& (y + h) * img.width * 4 <= u32::MAX
        &&& ((y + h - 1) * img.width + x + w) * 4 <= img.rgba@.len()
    }
}

impl DecodedImage {
    /// The `w` by `h` rectangle at `x`, `y`, or `None` when it does not fit.
    pub fn crop(&self, x: u32, y: u32, w: u32, h: u32) -> (r: Option<DecodedImage>)
        requires
            crop_defined(self, x, y, w, h),
        ensures
            !(x + w <= self.width && y + h <= self.height) ==> r is None,
            (x + w <= self.width && y + h <= self.height) ==> (r matches Some(c) && c.width == w
                && c.height == h && c.rgba@.len() == w * h * 4 && forall|row: int, k: int|
                0 <= row < h && 0 <= k < w * 4 ==> #[trigger] c.rgba@[row * w * 4 + k]
                == self.rgba@[((y + row) * self.width + x) * 4 + k]),
    {
        let xe = match x.checked_add(w) {
            Some(v) => v,
            None => {
                return None;
            },
        };
        if xe > self.width {
            return None;
        }
        let ye = match y.checked_add(h) {
            Some(v) => v,
            None => {
                return None;
            },
        };
        if ye > self.height {
            return None;
        }
        let mut out: Vec<u8> = Vec::new();
        let mut row: u32 = 0;
        while row < h
            invariant
                row <= h,
                x + w <= self.width,
                y + h <= self.height,
                crop_defined(self, x, y, w, h),
                out@.len() == row * w * 4,
                forall|rr: int, k: int|
                    0 <= rr < row && 0 <= k < w * 4 ==> #[trigger] out@[rr * w * 4 + k]
                        == self.rgba@[((y + rr) * self.width + x) * 4 + k],
            decreases h - row,
        {
            assert(((y + row) * self.width + x) * 4 + w * 4 <= ((y + h - 1) * self.width + x + w)
                * 4 && (y + row) * self.width * 4 <= (y + h) * self.width * 4) by (nonlinear_arith)
                requires
                    row < h,
            ;
            assert(((y + row) * self.width + x) * 4 + w * 4 <= u32::MAX) by (nonlinear_arith)
                requires
                    row < h,
                    x + w <= self.width,
                    (y + h) * self.width * 4 <= u32::MAX,
            ;
            let src_off = (((y + row) * self.width + x) * 4) as usize;
            let len = (w * 4) as usize;
            let ghost before = out@;
            out.extend_from_slice(&self.rgba[src_off..src_off + len]);
            proof {
                assert forall|rr: int, k: int|
                    0 <= rr < row + 1 && 0 <= k < w * 4 implies #[trigger] out@[rr * w * 4 + k]
                    == self.rgba@[((y + rr) * self.width + x) * 4 + k] by {
                    assert(rr * w * 4 + k < (rr + 1) * w * 4) by (nonlinear_arith)
                        requires
                            0 <= k < w * 4,
                    ;
                    if rr < row {
                        assert((rr + 1) * w * 4 <= row * w * 4) by (nonlinear_arith)
                            requires
                                rr < row,
                        ;
                        assert(out@[rr * w * 4 + k] == before[rr * w * 4 + k]);
                    } else {
                        assert(out@[rr * w * 4 + k] == self.rgba@[src_off + k]);
                    }
                }
            }
            row = row + 1;
            assert(out@.len() == row * w * 4) by (nonlinear_arith)
                requires
                    out@.len() == (row - 1) * w * 4 + w * 4,
            ;
        }
        assert(h * w * 4 == w * h * 4) by (nonlinear_arith);
        Some(DecodedImage { width: w, height: h, rgba: out })
    }
}

/// The little-endian `u32` at `off`.
pub fn u32_at(data: &[u8], off: usize) -> (r: u32)
    requires
        off + 4 <= data@.len(),
    ensures
        r == le_u32(data@, off as int),
{
    read_u32_le(data, off)
}

/// A 5-bit channel widened to 8 bits by repeating its top bits.
pub open spec fn widen5(v: int) -> int {
    v * 8 + v / 4
}

/// A 6-bit channel widened to 8 bits by repeating its top bits.
pub open spec fn widen6(v: int) -> int {
    v * 4 + v / 16
}

/// The red, green and blue of an RGB565 color.
pub open spec fn spec_rgb565(c: u16) -> (u8, u8, u8) {
    (
        widen5(c as int / 2048) as u8,
        widen6((c as int / 32) % 64) as u8,
        widen5(c as int % 32) as u8,
    )
}

/// The red, green and blue of an RGB565 color.
pub fn rgb565(c: u16) -> (r: (u8, u8, u8))
    ensures
        r == spec_rgb565(c),
{
    let r = ((c >> 11) & 0x1f) as u8;
    let g = ((c >> 5) & 0x3f) as u8;
    let b = (c & 0x1f) as u8;
    assert((c >> 11) & 0x1f == c / 2048) by (bit_vector);
    assert((c >> 5) & 0x3f == (c / 32) % 64) by (bit_vector);
    assert(c & 0x1f == c % 32) by (bit_vector);
    assert(r < 32 && g < 64 && b < 32);
    assert((r << 3) | (r >> 2) == r * 8 + r / 4) by (bit_vector)
        requires
            r < 32,
    ;
    assert((g << 2) | (g >> 4) == g * 4 + g / 16) by (bit_vector)
        requires
            g < 64,
    ;
    assert((b << 3) | (b >> 2) == b * 8 + b / 4) by (bit_vector)
        requires
            b < 32,
    ;
    ((r << 3) | (r >> 2), (g << 2) | (g >> 4), (b << 3) | (b >> 2))
}

/// How a channel mask turns a pixel into a byte: the masked bits, shifted
/// down; with eight bits or more their top eight bits, with fewer scaled to
/// 0..255 with rounding; 0 for an empty mask.
pub open spec fn spec_mask_to_byte(px: u32, mask: u32) -> u8 {
    if mask == 0 {
        0
    } else {
        let shift = u32_trailing_zeros(mask);
        let bits = 32 - shift - u32_leading_zeros(mask);
        let v = (px & mask) >> shift;
        if bits >= 8 {
            (v >> ((bits - 8) as u32)) as u8
        } else {
            let max = ((1u32 << (bits as u32)) - 1) as int;
            ((v * 255 + max / 2) / max) as u8
        }
    }
}

proof fn lemma_mask_span(mask: u32)
    requires
        mask != 0,
    ensures
        u32_trailing_zeros(mask) + u32_leading_zeros(mask) <= 31,
        ((mask >> u32_trailing_zeros(mask)) as u64) < (1u64 << ((32 - u32_trailing_zeros(mask)
            - u32_leading_zeros(mask)) as u64)),
{
    axiom_u32_trailing_zeros(mask);
    axiom_u32_leading_zeros(mask);
    let t = u32_trailing_zeros(mask);
    let l = u32_leading_zeros(mask);
    assert(t < 32 && l < 32);
    assert((mask >> t) & 1u32 == 1u32);
    if t >= 32 - l {
        assert((mask >> t) & 1u32 == 0u32);
    }
    let s = (32 - l) as u32;
    assert(mask >> s == 0);
    let d = (s - t) as u64;
    assert(1 <= d <= 32);
    assert((t < s && s <= 32 && d == (s - t) as u64 && mask >> s == 0) ==> ((mask >> t) as u64)
        < (1u64 << d)) by (bit_vector);
}

/// The byte a channel mask selects from a pixel.
pub fn mask_to_byte(px: u32, mask: u32) -> (r: u8)
    ensures
        r == spec_mask_to_byte(px, mask),
{
    if mask == 0 {
        return 0;
    }
    proof {
        lemma_mask_span(mask);
    }
    let shift = mask.trailing_zeros();
    let lz = mask.leading_zeros();
    let bits = 32 - shift - lz;
    let v = (px & mask) >> shift;
    assert((px & mask) >> shift <= mask >> shift) by (bit_vector);
    if bits >= 8 {
        (v >> (bits - 8)) as u8
    } else {
        assert((v as u64) < (1u64 << (bits as u64)));
        assert(2 <= (1u32 << bits) <= 128) by (bit_vector)
            requires
                1 <= bits <= 7,
        ;
        assert(v < (1u32 << bits)) by (bit_vector)
            requires
                1 <= bits <= 7,
                (v as u64) < (1u64 << (bits as u64)),
        ;
        let max = (1u32 << bits) - 1;
        assert(v <= max);
        assert(v * 255 + max / 2 <= 127 * 255 + 63) by (nonlinear_arith)
            requires
                v <= max <= 127,
        ;
        assert((v * 255 + max / 2) / (max as int) <= 255) by (nonlinear_arith)
            requires
                v <= max,
                1 <= max,
        ;
        ((v * 255 + max / 2) / max) as u8
    }
}

/// The image has this size and, pixel by pixel in row-major order, the four
/// RGBA bytes that `pixel(x, y)` gives.
pub open spec fn image_is(img: &DecodedImage, w: u32, h: u32, pixel: spec_fn(int, int) -> Seq<u8>) -> bool {
    &&& img.width == w
    &&& img.height == h
    &&& img.rgba@.len() == w * h * 4
    &&& forall|i: int|
        0 <= i < w * h ==> #[trigger] img.rgba@.subrange(4 * i, 4 * i + 4) == pixel(i % w as int, i / w as int)
}

/// Compressed blocks per row of pixels.
pub open spec fn blocks_across(width: u32) -> int {
    (width + 3) / 4
}

/// Where the block holding pixel `x`, `y` starts, for blocks of `size` bytes.
pub open spec fn block_offset(width: u32, x: int, y: int, size: int) -> int {
    ((y / 4) * blocks_across(width) + x / 4) * size
}

/// The 2-bit color index of pixel `px`, `py` within its block.
pub open spec fn color_index(bits: u32, px: int, py: int) -> int {
    ((bits >> ((2 * (4 * py + px)) as u32)) & 3) as int
}

/// Entry `idx` of a block's color palette as RGB: the two endpoint colors,
/// then two colors between them (a third and two thirds of the way, or,
/// in the one-bit-alpha mode of DXT1, halfway and black).
pub open spec fn palette_rgb(c0: u16, c1: u16, idx: int, four_color: bool) -> Seq<u8> {
    let (r0, g0, b0) = spec_rgb565(c0);
    let (r1, g1, b1) = spec_rgb565(c1);
    if idx == 0 {
        seq![r0, g0, b0]
    } else if idx == 1 {
        seq![r1, g1, b1]
    } else if four_color {
        if idx == 2 {
            seq![((2 * r0 + r1) / 3) as u8, ((2 * g0 + g1) / 3) as u8, ((2 * b0 + b1) / 3) as u8]
        } else {
            seq![((r0 + 2 * r1) / 3) as u8, ((g0 + 2 * g1) / 3) as u8, ((b0 + 2 * b1) / 3) as u8]
        }
    } else if idx == 2 {
        seq![((r0 + r1) / 2) as u8, ((g0 + g1) / 2) as u8, ((b0 + b1) / 2) as u8]
    } else {
        seq![0u8, 0u8, 0u8]
    }
}

/// A pixel of a DXT1 image: transparent black where its block lies past the
/// data, else its palette color, opaque except for the transparent entry of
/// the one-bit-alpha mode.
pub open spec fn bc1_pixel(data: Seq<u8>, width: u32, x: int, y: int) -> Seq<u8> {
    let off = block_offset(width, x, y, 8);
    if off + 8 > data.len() {
        seq![0u8, 0u8, 0u8, 0u8]
    } else {
        let c0 = le_u16(data, off) as u16;
        let c1 = le_u16(data, off + 2) as u16;
        let idx = color_index(le_u32(data, off + 4) as u32, x % 4, y % 4);
        let four = c0 > c1;
        palette_rgb(c0, c1, idx, four) + seq![
            if !four && idx == 3 {
                0u8
            } else {
                255u8
            },
        ]
    }
}

/// Entry `idx` of a block's RGB palette.
fn palette_entry(c0: u16, c1: u16, idx: usize, four_color: bool) -> (r: [u8; 3])
    requires
        idx < 4,
    ensures
        r@ == palette_rgb(c0, c1, idx as int, four_color),
{
    let (r0, g0, b0) = rgb565(c0);
    let (r1, g1, b1) = rgb565(c1);
    let out = if idx == 0 {
        [r0, g0, b0]
    } else if idx == 1 {
        [r1, g1, b1]
    } else if four_color {
        if idx == 2 {
            [
                ((2 * r0 as u16 + r1 as u16) / 3) as u8,
                ((2 * g0 as u16 + g1 as u16) / 3) as u8,
                ((2 * b0 as u16 + b1 as u16) / 3) as u8,
            ]
        } else {
            [
                ((r0 as u16 + 2 * r1 as u16) / 3) as u8,
                ((g0 as u16 + 2 * g1 as u16) / 3) as u8,
                ((b0 as u16 + 2 * b1 as u16) / 3) as u8,
            ]
        }
    } else if idx == 2 {
        [
            ((r0 as u16 + r1 as u16) / 2) as u8,
            ((g0 as u16 + g1 as u16) / 2) as u8,
            ((b0 as u16 + b1 as u16) / 2) as u8,
        ]
    } else {
        [0u8, 0u8, 0u8]
    };
    assert(out@ =~= palette_rgb(c0, c1, idx as int, four_color));
    out
}

/// The 2-bit color index of pixel `px`, `py` within its block.
fn block_color_index(bits: u32, px: u32, py: u32) -> (r: usize)
    requires
        px < 4,
        py < 4,
    ensures
        r == color_index(bits, px as int, py as int),
        r < 4,
{
    let shift = 2 * (4 * py + px);
    assert((bits >> shift) & 3 < 4) by (bit_vector);
    ((bits >> shift) & 3) as usize
}

/// Where the block holding pixel `x`, `y` starts, for blocks of `size` bytes.
fn block_start(width: u32, x: u32, y: u32, size: u128) -> (r: u128)
    requires
        width + 3 <= u32::MAX,
        size <= 16,
    ensures
        r == block_offset(width, x as int, y as int, size as int),
{
    let bw = ((width + 3) / 4) as u128;
    let by = (y / 4) as u128;
    let bx = (x / 4) as u128;
    assert(by * bw <= 0x4000_0000 * 0x4000_0000) by (nonlinear_arith)
        requires
            by <= 0x4000_0000,
            bw <= 0x4000_0000,
    ;
    assert((by * bw + bx) * size <= (0x4000_0000 * 0x4000_0000 + 0x4000_0000) * 16) by (nonlinear_arith)
        requires
            by * bw <= 0x4000_0000 * 0x4000_0000,
            bx <= 0x4000_0000,
            size <= 16,
    ;
    (by * bw + bx) * size
}

/// The decoding loops can size their output: `width * height * 4` fits in 32
/// bits and block counts can be taken.
pub open spec fn decodable_size(width: u32, height: u32) -> bool {
    width * height * 4 <= u32::MAX && width + 3 <= u32::MAX && height + 3 <= u32::MAX
}

proof fn lemma_pixel_coords(i: int, w: int, h: int)
    requires
        0 <= i < w * h,
        w > 0,
    ensures
        0 <= i % w < w,
        0 <= i / w < h,
{
    assert(0 <= i / w < h) by (nonlinear_arith)
        requires
            0 <= i < w * h,
            w > 0,
    ;
}

/// Decodes DXT1 (BC1) blocks of 8 bytes.
pub fn decode_bc1(data: &[u8], width: u32, height: u32) -> (img: DecodedImage)
    requires
        decodable_size(width, height),
    ensures
        image_is(&img, width, height, |x: int, y: int| bc1_pixel(data@, width, x, y)),
{
    let n = width * height;
    let mut rgba: Vec<u8> = Vec::new();
    let mut i: u32 = 0;
    while i < n
        invariant
            decodable_size(width, height),
            n == width * height,
            i <= n,
            rgba@.len() == 4 * i,
            forall|j: int|
                0 <= j < i ==> #[trigger] rgba@.subrange(4 * j, 4 * j + 4) == bc1_pixel(
                    data@,
                    width,
                    j % width as int,
                    j / width as int,
                ),
        decreases n - i,
    {
        proof {
            lemma_pixel_coords(i as int, width as int, height as int);
        }
        let x = i % width;
        let y = i / width;
        let off = block_start(width, x, y, 8);
        let ghost before = rgba@;
        if off > data.len() as u128 || data.len() as u128 - off < 8 {
            rgba.push(0);
            rgba.push(0);
            rgba.push(0);
            rgba.push(0);
        } else {
            let o = off as usize;
            let c0 = read_u16_le(data, o);
            let c1 = read_u16_le(data, o + 2);
            let bits = read_u32_le(data, o + 4);
            let idx = block_color_index(bits, x % 4, y % 4);
            let four = c0 > c1;
            let rgb = palette_entry(c0, c1, idx, four);
            rgba.push(rgb[0]);
            rgba.push(rgb[1]);
            rgba.push(rgb[2]);
            rgba.push(if !four && idx == 3 {
                0
            } else {
                255
            });
        }
        proof {
            assert(rgba@.subrange(4 * i as int, 4 * i + 4) =~= bc1_pixel(
                data@,
                width,
                x as int,
                y as int,
            ));
            assert forall|j: int| 0 <= j < i + 1 implies #[trigger] rgba@.subrange(4 * j, 4 * j + 4)
                == bc1_pixel(data@, width, j % width as int, j / width as int) by {
                if j < i {
                    assert(rgba@.subrange(4 * j, 4 * j + 4) =~= before.subrange(4 * j, 4 * j + 4));
                }
            }
        }
        i = i + 1;
    }
    assert(width * height * 4 == 4 * (width * height));
    DecodedImage { width, height, rgba }
}

/// The explicit 4-bit alpha of pixel `px`, `py` of a DXT3 block at `off`,
/// widened to 8 bits.
pub open spec fn bc2_alpha(data: Seq<u8>, off: int, px: int, py: int) -> u8 {
    let a_row = le_u16(data, off + py * 2) as u16;
    let a4 = ((a_row >> ((4 * px) as u16)) & 0xf) as int;
    (a4 * 17) as u8
}

/// A pixel of a DXT3 image: transparent black where its block lies past the
/// data, else its four-color palette entry with the block's explicit alpha.
pub open spec fn bc2_pixel(data: Seq<u8>, width: u32, x: int, y: int) -> Seq<u8> {
    let off = block_offset(width, x, y, 16);
    if off + 16 > data.len() {
        seq![0u8, 0u8, 0u8, 0u8]
    } else {
        let c0 = le_u16(data, off + 8) as u16;
        let c1 = le_u16(data, off + 10) as u16;
        let idx = color_index(le_u32(data, off + 12) as u32, x % 4, y % 4);
        palette_rgb(c0, c1, idx, true) + seq![bc2_alpha(data, off, x % 4, y % 4)]
    }
}

/// The 48 bits of alpha indices of a DXT5 block at `off`.
pub open spec fn bc3_alpha_bits(data: Seq<u8>, off: int) -> int {
    data[off + 2] + 256 * data[off + 3] + 65536 * data[off + 4] + 16777216 * data[off + 5]
        + 4294967296 * data[off + 6] + 1099511627776 * data[off + 7]
}

/// Entry `idx` of a DXT5 alpha palette: the two endpoints, then six steps
/// between them when the first is larger, else four steps, 0 and 255.
pub open spec fn bc3_alpha_entry(a0: u8, a1: u8, idx: int) -> u8 {
    if idx == 0 {
        a0
    } else if idx == 1 {
        a1
    } else if a0 > a1 {
        (((8 - idx) * a0 + (idx - 1) * a1) / 7) as u8
    } else if idx <= 5 {
        (((6 - idx) * a0 + (idx - 1) * a1) / 5) as u8
    } else if idx == 6 {
        0
    } else {
        255
    }
}

/// A pixel of a DXT5 image: transparent black where its block lies past the
/// data, else its four-color palette entry with interpolated alpha.
pub open spec fn bc3_pixel(data: Seq<u8>, width: u32, x: int, y: int) -> Seq<u8> {
    let off = block_offset(width, x, y, 16);
    if off + 16 > data.len() {
        seq![0u8, 0u8, 0u8, 0u8]
    } else {
        let c0 = le_u16(data, off + 8) as u16;
        let c1 = le_u16(data, off + 10) as u16;
        let idx = color_index(le_u32(data, off + 12) as u32, x % 4, y % 4);
        let a_idx = ((bc3_alpha_bits(data, off) as u64 >> ((3 * (4 * (y % 4) + x % 4)) as u64))
            & 7) as int;
        palette_rgb(c0, c1, idx, true) + seq![bc3_alpha_entry(data[off], data[off + 1], a_idx)]
    }
}

fn alpha4(data: &[u8], off: usize, px: u32, py: u32) -> (r: u8)
    requires
        off + 16 <= data@.len(),
        px < 4,
        py < 4,
    ensures
        r == bc2_alpha(data@, off as int, px as int, py as int),
{
    // offsets within the block stay below the slice's length
    let data_len = data.len();
    assert(off + 16 <= data_len);
    let a_row = read_u16_le(data, off + (py as usize) * 2);
    let sh = (4 * px) as u16;
    let a4 = ((a_row >> sh) & 0xf) as u8;
    assert((a_row >> sh) & 0xf < 16) by (bit_vector);
    assert((a4 << 4) | a4 == a4 * 17) by (bit_vector)
        requires
            a4 < 16,
    ;
    (a4 << 4) | a4
}

/// Decodes DXT3 (BC2) blocks of 16 bytes.
pub fn decode_bc2(data: &[u8], width: u32, height: u32) -> (img: DecodedImage)
    requires
        decodable_size(width, height),
    ensures
        image_is(&img, width, height, |x: int, y: int| bc2_pixel(data@, width, x, y)),
{
    let n = width * height;
    let mut rgba: Vec<u8> = Vec::new();
    let mut i: u32 = 0;
    while i < n
        invariant
            decodable_size(width, height),
            n == width * height,
            i <= n,
            rgba@.len() == 4 * i,
            forall|j: int|
                0 <= j < i ==> #[trigger] rgba@.subrange(4 * j, 4 * j + 4) == bc2_pixel(
                    data@,
                    width,
                    j % width as int,
                    j / width as int,
                ),
        decreases n - i,
    {
        proof {
            lemma_pixel_coords(i as int, width as int, height as int);
        }
        let x = i % width;
        let y = i / width;
        let off = block_start(width, x, y, 16);
        let ghost before = rgba@;
        if off > data.len() as u128 || data.len() as u128 - off < 16 {
            rgba.push(0);
            rgba.push(0);
            rgba.push(0);
            rgba.push(0);
        } else {
            let o = off as usize;
            let c0 = read_u16_le(data, o + 8);
            let c1 = read_u16_le(data, o + 10);
            let bits = read_u32_le(data, o + 12);
            let idx = block_color_index(bits, x % 4, y % 4);
            let rgb = palette_entry(c0, c1, idx, true);
            let a = alpha4(data, o, x % 4, y % 4);
            rgba.push(rgb[0]);
            rgba.push(rgb[1]);
            rgba.push(rgb[2]);
            rgba.push(a);
        }
        proof {
            assert(rgba@.subrange(4 * i as int, 4 * i + 4) =~= bc2_pixel(
                data@,
                width,
                x as int,
                y as int,
            ));
            assert forall|j: int| 0 <= j < i + 1 implies #[trigger] rgba@.subrange(4 * j, 4 * j + 4)
                == bc2_pixel(data@, width, j % width as int, j / width as int) by {
                if j < i {
                    assert(rgba@.subrange(4 * j, 4 * j + 4) =~= before.subrange(4 * j, 4 * j + 4));
                }
            }
        }
        i = i + 1;
    }
    assert(width * height * 4 == 4 * (width * height));
    DecodedImage { width, height, rgba }
}

fn alpha_entry(a0: u8, a1: u8, idx: u64) -> (r: u8)
    requires
        idx < 8,
    ensures
        r == bc3_alpha_entry(a0, a1, idx as int),
{
    let a0w = a0 as u16;
    let a1w = a1 as u16;
    if idx == 0 {
        a0
    } else if idx == 1 {
        a1
    } else if a0 > a1 {
        let k = idx as u16;
        assert((8 - k) * a0w + (k - 1) * a1w <= 7 * 255) by (nonlinear_arith)
            requires
                2 <= k <= 7,
                a0w <= 255,
                a1w <= 255,
        ;
        (((8 - k) * a0w + (k - 1) * a1w) / 7) as u8
    } else if idx <= 5 {
        let k = idx as u16;
        assert((6 - k) * a0w + (k - 1) * a1w <= 5 * 255) by (nonlinear_arith)
            requires
                2 <= k <= 5,
                a0w <= 255,
                a1w <= 255,
        ;
        (((6 - k) * a0w + (k - 1) * a1w) / 5) as u8
    } else if idx == 6 {
        0
    } else {
        255
    }
}

fn alpha_index(data: &[u8], off: usize, px: u32, py: u32) -> (r: u64)
    requires
        off + 16 <= data@.len(),
        px < 4,
        py < 4,
    ensures
        r == ((bc3_alpha_bits(data@, off as int) as u64 >> ((3 * (4 * py + px)) as u64)) & 7),
        r < 8,
{
    // offsets within the block stay below the slice's length
    let data_len = data.len();
    assert(off + 8 <= data_len);
    let a_bits: u64 = data[off + 2] as u64 + 256 * data[off + 3] as u64 + 65536 * data[off + 4] as u64
        + 16777216 * data[off + 5] as u64 + 4294967296 * data[off + 6] as u64 + 1099511627776
        * data[off + 7] as u64;
    let sh = (3 * (4 * py + px)) as u64;
    assert((a_bits >> sh) & 7 < 8) by (bit_vector);
    (a_bits >> sh) & 7
}

/// Decodes DXT5 (BC3) blocks of 16 bytes.
pub fn decode_bc3(data: &[u8], width: u32, height: u32) -> (img: DecodedImage)
    requires
        decodable_size(width, height),
    ensures
        image_is(&img, width, height, |x: int, y: int| bc3_pixel(data@, width, x, y)),
{
    let n = width * height;
    let mut rgba: Vec<u8> = Vec::new();
    let mut i: u32 = 0;
    while i < n
        invariant
            decodable_size(width, height),
            n == width * height,
            i <= n,
            rgba@.len() == 4 * i,
            forall|j: int|
                0 <= j < i ==> #[trigger] rgba@.subrange(4 * j, 4 * j + 4) == bc3_pixel(
                    data@,
                    width,
                    j % width as int,
                    j / width as int,
                ),
        decreases n - i,
    {
        proof {
            lemma_pixel_coords(i as int, width as int, height as int);
        }
        let x = i % width;
        let y = i / width;
        let off = block_start(width, x, y, 16);
        let ghost before = rgba@;
        if off > data.len() as u128 || data.len() as u128 - off < 16 {
            rgba.push(0);
            rgba.push(0);
            rgba.push(0);
            rgba.push(0);
        } else {
            let o = off as usize;
            let c0 = read_u16_le(data, o + 8);
            let c1 = read_u16_le(data, o + 10);
            let bits = read_u32_le(data, o + 12);
            let idx = block_color_index(bits, x % 4, y % 4);
            let rgb = palette_entry(c0, c1, idx, true);
            let a_idx = alpha_index(data, o, x % 4, y % 4);
            let a = alpha_entry(data[o], data[o + 1], a_idx);
            rgba.push(rgb[0]);
            rgba.push(rgb[1]);
            rgba.push(rgb[2]);
            rgba.push(a);
        }
        proof {
            assert(rgba@.subrange(4 * i as int, 4 * i + 4) =~= bc3_pixel(
                data@,
                width,
                x as int,
                y as int,
            ));
            assert forall|j: int| 0 <= j < i + 1 implies #[trigger] rgba@.subrange(4 * j, 4 * j + 4)
                == bc3_pixel(data@, width, j % width as int, j / width as int) by {
                if j < i {
                    assert(rgba@.subrange(4 * j, 4 * j + 4) =~= before.subrange(4 * j, 4 * j + 4));
                }
            }
        }
        i = i + 1;
    }
    assert(width * height * 4 == 4 * (width * height));
    DecodedImage { width, height, rgba }
}

/// A pixel of an uncompressed 32-bit image: its four bytes as a
/// little-endian word, each channel taken through its mask (alpha opaque
/// without a non-zero alpha mask); transparent black past the data.
pub open spec fn rgb32_pixel(data: Seq<u8>, width: u32, x: int, y: int, masks: (u32, u32, u32), a_mask: Option<u32>) -> Seq<u8> {
    let off = (width * y + x) * 4;
    if off + 4 > data.len() {
        seq![0u8, 0u8, 0u8, 0u8]
    } else {
        let px = le_u32(data, off) as u32;
        seq![
            spec_mask_to_byte(px, masks.0),
            spec_mask_to_byte(px, masks.1),
            spec_mask_to_byte(px, masks.2),
            match a_mask {
                Some(m) => if m != 0 {
                    spec_mask_to_byte(px, m)
                } else {
                    255u8
                },
                None => 255u8,
            },
        ]
    }
}

/// A pixel of an uncompressed 16-bit image: its two bytes as a
/// little-endian word, each color channel taken through its mask, opaque;
/// transparent black past the data.
pub open spec fn rgb16_pixel(data: Seq<u8>, width: u32, x: int, y: int, masks: (u32, u32, u32)) -> Seq<u8> {
    let off = (width * y + x) * 2;
    if off + 2 > data.len() {
        seq![0u8, 0u8, 0u8, 0u8]
    } else {
        let px = le_u16(data, off) as u32;
        seq![
            spec_mask_to_byte(px, masks.0),
            spec_mask_to_byte(px, masks.1),
            spec_mask_to_byte(px, masks.2),
            255u8,
        ]
    }
}

proof fn lemma_index_of_coords(i: int, w: int)
    requires
        0 <= i,
        w > 0,
    ensures
        w * (i / w) + i % w == i,
{
    vstd::arithmetic::div_mod::lemma_fundamental_div_mod(i, w);
}

/// Decodes uncompressed 32-bit pixels.
pub fn decode_rgb32(
    data: &[u8],
    width: u32,
    height: u32,
    r_mask: u32,
    g_mask: u32,
    b_mask: u32,
    a_mask: Option<u32>,
) -> (img: DecodedImage)
    requires
        width * height <= u32::MAX,
    ensures
        image_is(
            &img,
            width,
            height,
            |x: int, y: int| rgb32_pixel(data@, width, x, y, (r_mask, g_mask, b_mask), a_mask),
        ),
{
    let n = (width * height) as u64;
    let mut rgba: Vec<u8> = Vec::new();
    let mut i: u64 = 0;
    let len = data.len() as u64;
    while i < n
        invariant
            n == width * height,
            width * height <= u32::MAX,
            i <= n,
            len == data@.len(),
            data@.len() <= usize::MAX,
            rgba@.len() == 4 * i,
            forall|j: int|
                0 <= j < i ==> #[trigger] rgba@.subrange(4 * j, 4 * j + 4) == rgb32_pixel(
                    data@,
                    width,
                    j % width as int,
                    j / width as int,
                    (r_mask, g_mask, b_mask),
                    a_mask,
                ),
        decreases n - i,
    {
        proof {
            lemma_pixel_coords(i as int, width as int, height as int);
            lemma_index_of_coords(i as int, width as int);
        }
        let ghost before = rgba@;
        let off = i * 4;
        assert((width * (i as int / width as int) + i as int % width as int) * 4 == off as int);
        if off + 4 > len {
            rgba.push(0);
            rgba.push(0);
            rgba.push(0);
            rgba.push(0);
        } else {
            let o = off as usize;
            assert(o as int == off as int);
            let px = read_u32_le(data, o);
            rgba.push(mask_to_byte(px, r_mask));
            rgba.push(mask_to_byte(px, g_mask));
            rgba.push(mask_to_byte(px, b_mask));
            let a = match a_mask {
                Some(m) => if m != 0 {
                    mask_to_byte(px, m)
                } else {
                    255
                },
                None => 255,
            };
            rgba.push(a);
        }
        proof {
            assert(rgba@.subrange(4 * i as int, 4 * i + 4) =~= rgb32_pixel(
                data@,
                width,
                i as int % width as int,
                i as int / width as int,
                (r_mask, g_mask, b_mask),
                a_mask,
            ));
            assert forall|j: int| 0 <= j < i + 1 implies #[trigger] rgba@.subrange(4 * j, 4 * j + 4)
                == rgb32_pixel(
                data@,
                width,
                j % width as int,
                j / width as int,
                (r_mask, g_mask, b_mask),
                a_mask,
            ) by {
                if j < i {
                    assert(rgba@.subrange(4 * j, 4 * j + 4) =~= before.subrange(4 * j, 4 * j + 4));
                }
            }
        }
        i = i + 1;
    }
    assert(width * height * 4 == 4 * (width * height));
    DecodedImage { width, height, rgba }
}

/// Decodes uncompressed 16-bit pixels.
pub fn decode_rgb16(data: &[u8], width: u32, height: u32, r_mask: u32, g_mask: u32, b_mask: u32) -> (img: DecodedImage)
    requires
        width * height <= u32::MAX,
    ensures
        image_is(
            &img,
            width,
            height,
            |x: int, y: int| rgb16_pixel(data@, width, x, y, (r_mask, g_mask, b_mask)),
        ),
{
    let n = (width * height) as u64;
    let mut rgba: Vec<u8> = Vec::new();
    let mut i: u64 = 0;
    let len = data.len() as u64;
    while i < n
        invariant
            n == width * height,
            width * height <= u32::MAX,
            i <= n,
            len == data@.len(),
            data@.len() <= usize::MAX,
            rgba@.len() == 4 * i,
            forall|j: int|
                0 <= j < i ==> #[trigger] rgba@.subrange(4 * j, 4 * j + 4) == rgb16_pixel(
                    data@,
                    width,
                    j % width as int,
                    j / width as int,
                    (r_mask, g_mask, b_mask),
                ),
        decreases n - i,
    {
        proof {
            lemma_pixel_coords(i as int, width as int, height as int);
            lemma_index_of_coords(i as int, width as int);
        }
        let ghost before = rgba@;
        let off = i * 2;
        assert((width * (i as int / width as int) + i as int % width as int) * 2 == off as int);
        if off + 2 > len {
            rgba.push(0);
            rgba.push(0);
            rgba.push(0);
            rgba.push(0);
        } else {
            let o = off as usize;
            assert(o as int == off as int);
            let px = read_u16_le(data, o) as u32;
            rgba.push(mask_to_byte(px, r_mask));
            rgba.push(mask_to_byte(px, g_mask));
            rgba.push(mask_to_byte(px, b_mask));
            rgba.push(255);
        }
        proof {
            assert(rgba@.subrange(4 * i as int, 4 * i + 4) =~= rgb16_pixel(
                data@,
                width,
                i as int % width as int,
                i as int / width as int,
                (r_mask, g_mask, b_mask),
            ));
            assert forall|j: int| 0 <= j < i + 1 implies #[trigger] rgba@.subrange(4 * j, 4 * j + 4)
                == rgb16_pixel(
                data@,
                width,
                j % width as int,
                j / width as int,
                (r_mask, g_mask, b_mask),
            ) by {
                if j < i {
                    assert(rgba@.subrange(4 * j, 4 * j + 4) =~= before.subrange(4 * j, 4 * j + 4));
                }
            }
        }
        i = i + 1;
    }
    assert(width * height * 4 == 4 * (width * height));
    DecodedImage { width, height, rgba }
}

/// Why a file could not be decoded.
#[derive(Debug, PartialEq, Eq)]
pub enum DdsError {
    /// Shorter than a header, or without the `DDS ` magic.
    NotDds,
    /// A compressed format other than DXT1, DXT3 and DXT5; the four-character code.
    UnsupportedFourCC([u8; 4]),
    /// Neither compressed nor 32-bit or 16-bit RGB.
    UnsupportedFormat { flags: u32, bpp: u32 },
}

/// Pixel-format flag: the format is named by a four-character code.
pub const DDPF_FOURCC: u32 = 0x4;

/// Pixel-format flag: uncompressed RGB with channel masks.
pub const DDPF_RGB: u32 = 0x40;

/// Pixel-format flag: the alpha mask is meaningful.
pub const DDPF_ALPHAPIXELS: u32 = 0x1;

/// A header is there and starts with `DDS `.
pub open spec fn is_dds(d: Seq<u8>) -> bool {
    d.len() >= 128 && d[0] == 0x44 && d[1] == 0x44 && d[2] == 0x53 && d[3] == 0x20
}

pub open spec fn dds_height(d: Seq<u8>) -> u32 {
    le_u32(d, 12) as u32
}

pub open spec fn dds_width(d: Seq<u8>) -> u32 {
    le_u32(d, 16) as u32
}

pub open spec fn dds_flags(d: Seq<u8>) -> u32 {
    le_u32(d, 80) as u32
}

pub open spec fn dds_bpp(d: Seq<u8>) -> u32 {
    le_u32(d, 88) as u32
}

pub open spec fn dds_mask(d: Seq<u8>, k: int) -> u32 {
    le_u32(d, 92 + 4 * k) as u32
}

/// The pixel data after the header.
pub open spec fn dds_pixels(d: Seq<u8>) -> Seq<u8> {
    d.subrange(128, d.len() as int)
}

/// The four-character code is `DXT` followed by `digit`.
pub open spec fn fourcc_is_dxt(d: Seq<u8>, digit: u8) -> bool {
    d[84] == 0x44 && d[85] == 0x58 && d[86] == 0x54 && d[87] == digit
}

pub open spec fn uses_fourcc(d: Seq<u8>) -> bool {
    dds_flags(d) & DDPF_FOURCC != 0
}

pub open spec fn is_rgb(d: Seq<u8>) -> bool {
    dds_flags(d) & DDPF_RGB != 0
}

/// The decoder's buffers for this header fit in 32 bits; where they would
/// not, a decodable file cannot be taken.
pub open spec fn dds_decode_defined(d: Seq<u8>) -> bool {
    is_dds(d) ==> {
        &&& (uses_fourcc(d) && (fourcc_is_dxt(d, 0x31) || fourcc_is_dxt(d, 0x33)
            || fourcc_is_dxt(d, 0x35))) ==> decodable_size(dds_width(d), dds_height(d))
        &&& (!uses_fourcc(d) && is_rgb(d) && (dds_bpp(d) == 32 || dds_bpp(d) == 16))
            ==> dds_width(d) * dds_height(d) <= u32::MAX
    }
}

/// Decodes a DDS file: DXT1, DXT3 and DXT5 by their four-character code,
/// else 32-bit RGB (with alpha where the flags say so) or 16-bit RGB.
pub fn decode(data: &[u8]) -> (r: Result<DecodedImage, DdsError>)
    requires
        dds_decode_defined(data@),
    ensures
        !is_dds(data@) ==> r == Err::<DecodedImage, DdsError>(DdsError::NotDds),
        is_dds(data@) && uses_fourcc(data@) && fourcc_is_dxt(data@, 0x31) ==> (r matches Ok(img)
            && image_is(&img, dds_width(data@), dds_height(data@),
            |x: int, y: int| bc1_pixel(dds_pixels(data@), dds_width(data@), x, y))),
        is_dds(data@) && uses_fourcc(data@) && fourcc_is_dxt(data@, 0x33) ==> (r matches Ok(img)
            && image_is(&img, dds_width(data@), dds_height(data@),
            |x: int, y: int| bc2_pixel(dds_pixels(data@), dds_width(data@), x, y))),
        is_dds(data@) && uses_fourcc(data@) && fourcc_is_dxt(data@, 0x35) ==> (r matches Ok(img)
            && image_is(&img, dds_width(data@), dds_height(data@),
            |x: int, y: int| bc3_pixel(dds_pixels(data@), dds_width(data@), x, y))),
        is_dds(data@) && uses_fourcc(data@) && !fourcc_is_dxt(data@, 0x31) && !fourcc_is_dxt(
            data@,
            0x33,
        ) && !fourcc_is_dxt(data@, 0x35) ==> (r matches Err(DdsError::UnsupportedFourCC(c))
            && c@ == data@.subrange(84, 88)),
        is_dds(data@) && !uses_fourcc(data@) && is_rgb(data@) && dds_bpp(data@) == 32 ==> (r matches Ok(
            img,
        ) && image_is(
            &img,
            dds_width(data@),
            dds_height(data@),
            |x: int, y: int|
                rgb32_pixel(
                    dds_pixels(data@),
                    dds_width(data@),
                    x,
                    y,
                    (dds_mask(data@, 0), dds_mask(data@, 1), dds_mask(data@, 2)),
                    if dds_flags(data@) & DDPF_ALPHAPIXELS != 0 {
                        Some(dds_mask(data@, 3))
                    } else {
                        None
                    },
                ),
        )),
        is_dds(data@) && !uses_fourcc(data@) && is_rgb(data@) && dds_bpp(data@) == 16 ==> (r matches Ok(
            img,
        ) && image_is(
            &img,
            dds_width(data@),
            dds_height(data@),
            |x: int, y: int|
                rgb16_pixel(
                    dds_pixels(data@),
                    dds_width(data@),
                    x,
                    y,
                    (dds_mask(data@, 0), dds_mask(data@, 1), dds_mask(data@, 2)),
                ),
        )),
        is_dds(data@) && !uses_fourcc(data@) && !(is_rgb(data@) && (dds_bpp(data@) == 32
            || dds_bpp(data@) == 16)) ==> r == Err::<DecodedImage, DdsError>(
            DdsError::UnsupportedFormat { flags: dds_flags(data@), bpp: dds_bpp(data@) },
        ),
{
    if data.len() < 128 || data[0] != 0x44 || data[1] != 0x44 || data[2] != 0x53 || data[3] != 0x20 {
        return Err(DdsError::NotDds);
    }
    let height = u32_at(data, 12);
    let width = u32_at(data, 16);
    let pf_flags = u32_at(data, 80);
    let rgb_bit_count = u32_at(data, 88);
    let r_mask = u32_at(data, 92);
    let g_mask = u32_at(data, 96);
    let b_mask = u32_at(data, 100);
    let a_mask = u32_at(data, 104);
    let pixel_data = &data[128..data.len()];
    assert(pixel_data@ == dds_pixels(data@));
    if (pf_flags & DDPF_FOURCC) != 0 {
        let c0 = data[84];
        let c1 = data[85];
        let c2 = data[86];
        let c3 = data[87];
        if c0 == 0x44 && c1 == 0x58 && c2 == 0x54 && c3 == 0x31 {
            Ok(decode_bc1(pixel_data, width, height))
        } else if c0 == 0x44 && c1 == 0x58 && c2 == 0x54 && c3 == 0x33 {
            Ok(decode_bc2(pixel_data, width, height))
        } else if c0 == 0x44 && c1 == 0x58 && c2 == 0x54 && c3 == 0x35 {
            Ok(decode_bc3(pixel_data, width, height))
        } else {
            let code: [u8; 4] = [c0, c1, c2, c3];
            assert(code@ =~= data@.subrange(84, 88));
            Err(DdsError::UnsupportedFourCC(code))
        }
    } else if (pf_flags & DDPF_RGB) != 0 && rgb_bit_count == 32 {
        let alpha = if (pf_flags & DDPF_ALPHAPIXELS) != 0 {
            Some(a_mask)
        } else {
            None
        };
        Ok(decode_rgb32(pixel_data, width, height, r_mask, g_mask, b_mask, alpha))
    } else if (pf_flags & DDPF_RGB) != 0 && rgb_bit_count == 16 {
        Ok(decode_rgb16(pixel_data, width, height, r_mask, g_mask, b_mask))
    } else {
        Err(DdsError::UnsupportedFormat { flags: pf_flags, bpp: rgb_bit_count })
    }
}

proof fn lemma_block_alone(width: u32, x: int, y: int, size: int)
    requires
        0 <= x,
        0 <= y,
        size > 0,
    ensures
        block_offset(width, x, y, size) == ((y / 4) * ((width + 3) / 4) + x / 4) * size,
        block_offset(4, x % 4, y % 4, size) == 0,
        (x % 4) % 4 == x % 4,
        (y % 4) % 4 == y % 4,
{
    assert((x % 4) / 4 == 0);
    assert((y % 4) / 4 == 0);
    assert(blocks_across(4) == 1);
    assert(((y % 4) / 4) * blocks_across(4) + (x % 4) / 4 == 0);
    assert(0 * size == 0);
}

/// DXT1 blocks are stored row by row, eight bytes each: pixel (x, y) comes
/// from the block starting at byte ((y / 4) * ceil(width / 4) + x / 4) * 8,
/// decoded on its own as pixel (x % 4, y % 4) of a single-block image; a
/// pixel whose block lies past the data is transparent black.
pub proof fn lemma_bc1_blocks_row_major(data: Seq<u8>, width: u32, x: int, y: int)
    requires
        0 <= x,
        0 <= y,
    ensures
        ({
            let o = ((y / 4) * ((width + 3) / 4) + x / 4) * 8;
            &&& o + 8 <= data.len() ==> bc1_pixel(data, width, x, y) == bc1_pixel(
                data.subrange(o, o + 8),
                4,
                x % 4,
                y % 4,
            )
            &&& o + 8 > data.len() ==> bc1_pixel(data, width, x, y) == seq![0u8, 0u8, 0u8, 0u8]
        }),
{
    lemma_block_alone(width, x, y, 8);
    let o = ((y / 4) * ((width + 3) / 4) + x / 4) * 8;
    if o + 8 <= data.len() {
        let b = data.subrange(o, o + 8);
        assert(0 <= o) by (nonlinear_arith)
            requires
                0 <= x,
                0 <= y,
                width >= 0,
                o == ((y / 4) * ((width + 3) / 4) + x / 4) * 8,
        ;
        assert forall|k: int| 0 <= k < 8 implies #[trigger] b[k] == data[o + k] by {}
        assert(le_u16(b, 0) == le_u16(data, o));
        assert(le_u16(b, 2) == le_u16(data, o + 2));
        assert(le_u32(b, 4) == le_u32(data, o + 4));
    }
}

/// DXT3 blocks are stored row by row, sixteen bytes each: pixel (x, y) comes
/// from the block starting at byte ((y / 4) * ceil(width / 4) + x / 4) * 16,
/// decoded on its own as pixel (x % 4, y % 4) of a single-block image.
pub proof fn lemma_bc2_blocks_row_major(data: Seq<u8>, width: u32, x: int, y: int)
    requires
        0 <= x,
        0 <= y,
    ensures
        ({
            let o = ((y / 4) * ((width + 3) / 4) + x / 4) * 16;
            &&& o + 16 <= data.len() ==> bc2_pixel(data, width, x, y) == bc2_pixel(
                data.subrange(o, o + 16),
                4,
                x % 4,
                y % 4,
            )
            &&& o + 16 > data.len() ==> bc2_pixel(data, width, x, y) == seq![0u8, 0u8, 0u8, 0u8]
        }),
{
    lemma_block_alone(width, x, y, 16);
    let o = ((y / 4) * ((width + 3) / 4) + x / 4) * 16;
    if o + 16 <= data.len() {
        let b = data.subrange(o, o + 16);
        assert(0 <= o) by (nonlinear_arith)
            requires
                0 <= x,
                0 <= y,
                width >= 0,
                o == ((y / 4) * ((width + 3) / 4) + x / 4) * 16,
        ;
        assert forall|k: int| 0 <= k < 16 implies #[trigger] b[k] == data[o + k] by {}
        assert(le_u16(b, 8) == le_u16(data, o + 8));
        assert(le_u16(b, 10) == le_u16(data, o + 10));
        assert(le_u32(b, 12) == le_u32(data, o + 12));
        let py = y % 4;
        assert(0 <= py < 4);
        assert(le_u16(b, py * 2) == le_u16(data, o + py * 2));
        assert(bc2_alpha(b, 0, x % 4, py) == bc2_alpha(data, o, x % 4, py));
    }
}

/// DXT5 blocks are stored row by row, sixteen bytes each: pixel (x, y) comes
/// from the block starting at byte ((y / 4) * ceil(width / 4) + x / 4) * 16,
/// decoded on its own as pixel (x % 4, y % 4) of a single-block image.
pub proof fn lemma_bc3_blocks_row_major(data: Seq<u8>, width: u32, x: int, y: int)
    requires
        0 <= x,
        0 <= y,
    ensures
        ({
            let o = ((y / 4) * ((width + 3) / 4) + x / 4) * 16;
            &&& o + 16 <= data.len() ==> bc3_pixel(data, width, x, y) == bc3_pixel(
                data.subrange(o, o + 16),
                4,
                x % 4,
                y % 4,
            )
            &&& o + 16 > data.len() ==> bc3_pixel(data, width, x, y) == seq![0u8, 0u8, 0u8, 0u8]
        }),
{
    lemma_block_alone(width, x, y, 16);
    let o = ((y / 4) * ((width + 3) / 4) + x / 4) * 16;
    if o + 16 <= data.len() {
        let b = data.subrange(o, o + 16);
        assert(0 <= o) by (nonlinear_arith)
            requires
                0 <= x,
                0 <= y,
                width >= 0,
                o == ((y / 4) * ((width + 3) / 4) + x / 4) * 16,
        ;
        assert forall|k: int| 0 <= k < 16 implies #[trigger] b[k] == data[o + k] by {}
        assert(le_u16(b, 8) == le_u16(data, o + 8));
        assert(le_u16(b, 10) == le_u16(data, o + 10));
        assert(le_u32(b, 12) == le_u32(data, o + 12));
        assert(bc3_alpha_bits(b, 0) == bc3_alpha_bits(data, o));
        assert(b[0] == data[o] && b[1] == data[o + 1]);
    }
}

/// Within a block, the four pixels of row `py` take their 2-bit palette
/// indices from index byte `py` (the block's byte `py` after the two
/// colors), pixel `px` from bits `2 * px` and `2 * px + 1` of it.
pub proof fn lemma_color_index_bytes(b0: u8, b1: u8, b2: u8, b3: u8, px: u32, py: u32)
    requires
        px < 4,
        py < 4,
    ensures
        ({
            let row = if py == 0 {
                b0
            } else if py == 1 {
                b1
            } else if py == 2 {
                b2
            } else {
                b3
            };
            color_index(
                (b0 as int + 256 * (b1 as int) + 65536 * (b2 as int) + 16777216 * (b3 as int)) as u32,
                px as int,
                py as int,
            ) == (row as int / (if px == 0 {
                1int
            } else if px == 1 {
                4int
            } else if px == 2 {
                16int
            } else {
                64int
            })) % 4
        }),
{
    let w: u32 = (b0 as u32) | ((b1 as u32) << 8u32) | ((b2 as u32) << 16u32) | ((b3 as u32) << 24u32);
    let sum: u32 = (b0 as u32 + 256 * (b1 as u32) + 65536 * (b2 as u32) + 16777216 * (b3 as u32)) as u32;
    assert(w == sum) by (bit_vector)
        requires
            w == (b0 as u32) | ((b1 as u32) << 8u32) | ((b2 as u32) << 16u32) | ((b3 as u32) << 24u32),
            sum == (b0 as u32 + 256 * (b1 as u32) + 65536 * (b2 as u32) + 16777216 * (b3 as u32)) as u32,
    ;
    assert(sum == (b0 as int + 256 * (b1 as int) + 65536 * (b2 as int) + 16777216 * (b3 as int)) as u32);
    let row: u8 = if py == 0 {
        b0
    } else if py == 1 {
        b1
    } else if py == 2 {
        b2
    } else {
        b3
    };
    assert(((w >> (2 * (4 * py + px))) & 3) == (((row as u32) >> (2 * px)) & 3)) by (bit_vector)
        requires
            w == (b0 as u32) | ((b1 as u32) << 8u32) | ((b2 as u32) << 16u32) | ((b3 as u32) << 24u32),
            row == (if py == 0 {
                b0
            } else if py == 1 {
                b1
            } else if py == 2 {
                b2
            } else {
                b3
            }),
            px < 4,
            py < 4,
    ;
    assert((((row as u32) >> (2 * px)) & 3) as int == (row as int / (if px == 0 {
        1int
    } else if px == 1 {
        4int
    } else if px == 2 {
        16int
    } else {
        64int
    })) % 4) by {
        if px == 0 {
            assert(((row as u32) >> 0u32) & 3 == (row as u32) % 4) by (bit_vector);
        } else if px == 1 {
            assert(((row as u32) >> 2u32) & 3 == ((row as u32) / 4) % 4) by (bit_vector);
        } else if px == 2 {
            assert(((row as u32) >> 4u32) & 3 == ((row as u32) / 16) % 4) by (bit_vector);
        } else {
            assert(((row as u32) >> 6u32) & 3 == ((row as u32) / 64) % 4) by (bit_vector);
        }
    }
}

/// A block's palette: entries 0 and 1 are its two colors; with the first
/// color word above the second, entry 2 lies a third of the way from color 0
/// to color 1 and entry 3 two thirds (each channel rounded down); otherwise
/// entry 2 is the halfway color (rounded down) and entry 3 black.
pub proof fn lemma_palette_entries(c0: u16, c1: u16)
    ensures
        ({
            let (r0, g0, b0) = spec_rgb565(c0);
            let (r1, g1, b1) = spec_rgb565(c1);
            let four = c0 > c1;
            let e2 = palette_rgb(c0, c1, 2, four);
            let e3 = palette_rgb(c0, c1, 3, four);
            &&& palette_rgb(c0, c1, 0, four) == seq![r0, g0, b0]
            &&& palette_rgb(c0, c1, 1, four) == seq![r1, g1, b1]
            &&& e2.len() == 3 && e3.len() == 3
            &&& four ==> 3 * e2[0] <= 2 * r0 + r1 < 3 * e2[0] + 3 && 3 * e2[1] <= 2 * g0 + g1 < 3
                * e2[1] + 3 && 3 * e2[2] <= 2 * b0 + b1 < 3 * e2[2] + 3
            &&& four ==> 3 * e3[0] <= r0 + 2 * r1 < 3 * e3[0] + 3 && 3 * e3[1] <= g0 + 2 * g1 < 3
                * e3[1] + 3 && 3 * e3[2] <= b0 + 2 * b1 < 3 * e3[2] + 3
            &&& !four ==> 2 * e2[0] <= r0 + r1 < 2 * e2[0] + 2 && 2 * e2[1] <= g0 + g1 < 2 * e2[1]
                + 2 && 2 * e2[2] <= b0 + b1 < 2 * e2[2] + 2
            &&& !four ==> e3 == seq![0u8, 0u8, 0u8]
        }),
{
}

/// A DXT1 pixel is opaque except where the block's first color word is not
/// above its second and the pixel's index is 3: that one is transparent.
pub proof fn lemma_bc1_alpha(data: Seq<u8>, width: u32, x: int, y: int)
    requires
        0 <= x,
        0 <= y,
        block_offset(width, x, y, 8) + 8 <= data.len(),
    ensures
        ({
            let off = block_offset(width, x, y, 8);
            let c0 = le_u16(data, off);
            let c1 = le_u16(data, off + 2);
            let idx = color_index(le_u32(data, off + 4) as u32, x % 4, y % 4);
            &&& bc1_pixel(data, width, x, y).len() == 4
            &&& bc1_pixel(data, width, x, y)[3] == (if c0 <= c1 && idx == 3 {
                0u8
            } else {
                255u8
            })
        }),
{
    let off = block_offset(width, x, y, 8);
    let c0 = le_u16(data, off);
    let c1 = le_u16(data, off + 2);
    assert(0 <= c0 < 65536 && 0 <= c1 < 65536);
    assert((c0 as u16 > c1 as u16) == (c0 > c1));
}

} // verus!
