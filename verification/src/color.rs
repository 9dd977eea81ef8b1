//! Colors, the squared-distance color metric and the 5:6:5 endpoint precision.

use vstd::prelude::*;
use vstd::arithmetic::div_mod::lemma_fundamental_div_mod_converse;

verus! {

/// An RGBA color with eight bits per channel.
///
/// Only red, green and blue take part in distances and in the packed
/// endpoint encoding; alpha is carried along but never compressed.
#[derive(Clone, Copy, Debug, PartialEq, Eq, Structural)]
pub struct Color {
    pub r: u8,
    pub g: u8,
    pub b: u8,
    pub a: u8,
}

/// A 4x4 tile of pixels, row by row.
pub type Block = [Color; 16];

/// The largest distance between two colors: all three channels 255 apart.
pub const MAX_PIXEL_DIST: u32 = 195075;

/// The squared difference of two channel values.
pub open spec fn spec_channel_dist(x: u8, y: u8) -> int {
    (x - y) * (x - y)
}

/// The distance between two colors: the squared differences of red, green
/// and blue, summed. Alpha does not count.
pub open spec fn spec_pixel_dist(a: Color, b: Color) -> int {
    spec_channel_dist(a.r, b.r) + spec_channel_dist(a.g, b.g) + spec_channel_dist(a.b, b.b)
}

/// A color snapped to 5:6:5 precision: red and blue rounded down to a
/// multiple of 8, green to a multiple of 4, alpha to a multiple of 128.
pub open spec fn spec_quantize(c: Color) -> Color {
    Color {
        r: (c.r / 8 * 8) as u8,
        g: (c.g / 4 * 4) as u8,
        b: (c.b / 8 * 8) as u8,
        a: (c.a / 128 * 128) as u8,
    }
}

/// Whether red, green and blue of a color are exactly representable in 5:6:5.
pub open spec fn spec_is_565(c: Color) -> bool {
    c.r % 8 == 0 && c.g % 4 == 0 && c.b % 8 == 0
}

/// The RGB565 number of a color: five bits of red, six of green, five of
/// blue, red in the highest place. Alpha is dropped.
pub open spec fn spec_encode_endpoint(c: Color) -> int {
    (c.r / 8) * 2048 + (c.g / 4) * 32 + c.b / 8
}

/// The opaque-alpha-free color that an RGB565 number stands for, each field
/// scaled back to eight bits with the low bits zero.
pub open spec fn spec_decode_endpoint(code: int) -> Color {
    Color {
        r: ((code / 2048) % 32 * 8) as u8,
        g: ((code / 32) % 64 * 4) as u8,
        b: (code % 32 * 8) as u8,
        a: 0,
    }
}

/// Whether two colors agree in red, green and blue.
pub open spec fn spec_same_rgb(a: Color, b: Color) -> bool {
    a.r == b.r && a.g == b.g && a.b == b.b
}

/// A squared channel difference is at most 255 squared, and zero exactly
/// for equal values.
pub proof fn lemma_channel_dist_bounds(x: u8, y: u8)
    ensures
        0 <= spec_channel_dist(x, y) <= 65025,
        spec_channel_dist(x, y) == 0 <==> x == y,
        spec_channel_dist(x, y) == spec_channel_dist(y, x),
{
    let d = x - y;
    assert(0 <= d * d <= 65025 && (d * d == 0 <==> d == 0) && d * d == (-d) * (-d))
        by (nonlinear_arith)
        requires
            -255 <= d <= 255,
    ;
}

/// The distance is symmetric, at most [`MAX_PIXEL_DIST`], and zero exactly
/// for colors with the same red, green and blue.
pub proof fn lemma_pixel_dist_bounds(a: Color, b: Color)
    ensures
        0 <= spec_pixel_dist(a, b) <= MAX_PIXEL_DIST,
        spec_pixel_dist(a, b) == spec_pixel_dist(b, a),
        spec_pixel_dist(a, b) == 0 <==> spec_same_rgb(a, b),
{
    lemma_channel_dist_bounds(a.r, b.r);
    lemma_channel_dist_bounds(a.g, b.g);
    lemma_channel_dist_bounds(a.b, b.b);
}

/// Quantizing twice is quantizing once.
pub proof fn lemma_quantize_idempotent(c: Color)
    ensures
        spec_quantize(spec_quantize(c)) == spec_quantize(c),
{
}

/// A quantized color is representable in 5:6:5, never above the color it
/// came from, and below it by less than one step of its channel: 8 for red
/// and blue, 4 for green.
pub proof fn lemma_quantize_precision(c: Color)
    ensures
        spec_is_565(spec_quantize(c)),
        0 <= c.r - spec_quantize(c).r < 8,
        0 <= c.g - spec_quantize(c).g < 4,
        0 <= c.b - spec_quantize(c).b < 8,
        spec_is_565(c) ==> spec_same_rgb(spec_quantize(c), c),
{
}

/// Quantizing does not change the RGB565 number of a color, and decoding
/// that number gives back red, green and blue of the quantized color.
pub proof fn lemma_endpoint_round_trip(c: Color)
    ensures
        0 <= spec_encode_endpoint(c) < 65536,
        spec_encode_endpoint(spec_quantize(c)) == spec_encode_endpoint(c),
        spec_same_rgb(spec_decode_endpoint(spec_encode_endpoint(c)), spec_quantize(c)),
{
    lemma_code_fields(c.r as int / 8, c.g as int / 4, c.b as int / 8);
}

proof fn lemma_code_fields(r: int, g: int, b: int)
    requires
        0 <= r < 32,
        0 <= g < 64,
        0 <= b < 32,
    ensures
        ({
            let code = r * 2048 + g * 32 + b;
            &&& 0 <= code < 65536
            &&& (code / 2048) % 32 == r
            &&& (code / 32) % 64 == g
            &&& code % 32 == b
        }),
{
    let code = r * 2048 + g * 32 + b;
    lemma_fundamental_div_mod_converse(code, 2048, r, g * 32 + b);
    lemma_fundamental_div_mod_converse(code, 32, r * 64 + g, b);
    lemma_fundamental_div_mod_converse(r * 64 + g, 64, r, g);
    lemma_fundamental_div_mod_converse(r, 32, 0, r);
}

/// Two colors have the same RGB565 number exactly when they quantize to the
/// same red, green and blue.
pub proof fn lemma_endpoint_code_injective(a: Color, b: Color)
    ensures
        spec_encode_endpoint(a) == spec_encode_endpoint(b) <==> spec_same_rgb(
            spec_quantize(a),
            spec_quantize(b),
        ),
{
    lemma_endpoint_round_trip(a);
    lemma_endpoint_round_trip(b);
}

fn channel_dist(x: u8, y: u8) -> (d: u32)
    ensures
        d == spec_channel_dist(x, y),
        d <= 65025,
{
    let diff: u32 = if x >= y {
        (x - y) as u32
    } else {
        (y - x) as u32
    };
    proof {
        lemma_channel_dist_bounds(x, y);
        assert(diff * diff == (x - y) * (x - y)) by (nonlinear_arith)
            requires
                diff == x - y || diff == y - x,
        ;
    }
    diff * diff
}

/// The distance between two colors.
pub fn pixel_dist(a: &Color, b: &Color) -> (d: u32)
    ensures
        d == spec_pixel_dist(*a, *b),
        d <= MAX_PIXEL_DIST,
{
    channel_dist(a.r, b.r) + channel_dist(a.g, b.g) + channel_dist(a.b, b.b)
}

/// Snaps a color to 5:6:5 precision.
pub fn quantize(c: &Color) -> (q: Color)
    ensures
        q == spec_quantize(*c),
{
    let r: u8 = c.r;
    let g: u8 = c.g;
    let b: u8 = c.b;
    let a: u8 = c.a;
    assert(r & 0xF8 == r / 8 * 8) by (bit_vector);
    assert(g & 0xFC == g / 4 * 4) by (bit_vector);
    assert(b & 0xF8 == b / 8 * 8) by (bit_vector);
    assert(a & 0x80 == a / 128 * 128) by (bit_vector);
    Color { r: r & 0xF8, g: g & 0xFC, b: b & 0xF8, a: a & 0x80 }
}

/// Packs red, green and blue of a color into its RGB565 number.
pub fn encode_endpoint(c: &Color) -> (code: u16)
    ensures
        code == spec_encode_endpoint(*c),
{
    let r: u16 = c.r as u16;
    let g: u16 = c.g as u16;
    let b: u16 = c.b as u16;
    assert((((r >> 3) << 11) | ((g >> 2) << 5) | (b >> 3)) == (r / 8) * 2048 + (g / 4) * 32 + b / 8)
        by (bit_vector)
        requires
            r < 256,
            g < 256,
            b < 256,
    ;
    ((r >> 3) << 11) | ((g >> 2) << 5) | (b >> 3)
}

} // verus!
