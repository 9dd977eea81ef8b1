//! Endpoint pairs: quantizing, ordering and extrapolating the two colors
//! that span a block's color line.

use vstd::prelude::*;
use crate::color::{
    encode_endpoint, lemma_endpoint_code_injective, lemma_endpoint_round_trip,
    lemma_quantize_precision, quantize, spec_encode_endpoint, spec_is_565, spec_quantize,
    spec_same_rgb, Color,
};

verus! {

/// The two colors that define the color line of a block.
#[derive(Clone, Copy, Debug, PartialEq, Eq, Structural)]
pub struct EndpointPair {
    pub low: Color,
    pub high: Color,
}

/// Numerator of the extrapolation factor 3/2.
pub const EXTRAPOLATION_NUM: u16 = 3;

/// Denominator of the extrapolation factor 3/2.
pub const EXTRAPOLATION_DEN: u16 = 2;

/// Both colors of a pair snapped to 5:6:5 precision, in their order.
pub open spec fn spec_quantize_endpoints(ends: EndpointPair) -> EndpointPair {
    EndpointPair { low: spec_quantize(ends.low), high: spec_quantize(ends.high) }
}

/// One channel pushed away from the other: `y + 3/2 * (x - y)`, which is
/// `x` moved half the difference further from `y`, kept inside `0..=255`
/// with the fraction dropped.
pub open spec fn spec_extrapolate_channel(x: u8, y: u8) -> u8 {
    let scaled = EXTRAPOLATION_DEN * y + EXTRAPOLATION_NUM * (x - y);
    if scaled <= 0 {
        0u8
    } else if scaled >= EXTRAPOLATION_DEN * 255 {
        255u8
    } else {
        (scaled / (EXTRAPOLATION_DEN as int)) as u8
    }
}

/// A pair widened along its line: red, green and blue of each color are
/// pushed away from those of the other color; alpha stays.
pub open spec fn spec_extrapolate_endpoints(ends: EndpointPair) -> EndpointPair {
    EndpointPair {
        low: Color {
            r: spec_extrapolate_channel(ends.low.r, ends.high.r),
            g: spec_extrapolate_channel(ends.low.g, ends.high.g),
            b: spec_extrapolate_channel(ends.low.b, ends.high.b),
            a: ends.low.a,
        },
        high: Color {
            r: spec_extrapolate_channel(ends.high.r, ends.low.r),
            g: spec_extrapolate_channel(ends.high.g, ends.low.g),
            b: spec_extrapolate_channel(ends.high.b, ends.low.b),
            a: ends.high.a,
        },
    }
}

/// A pair put in ascending order of RGB565 number, then quantized. A pair
/// whose numbers are equal keeps its order.
pub open spec fn spec_sort_quantize_endpoints(ends: EndpointPair) -> EndpointPair {
    if spec_encode_endpoint(ends.low) > spec_encode_endpoint(ends.high) {
        spec_quantize_endpoints(EndpointPair { low: ends.high, high: ends.low })
    } else {
        spec_quantize_endpoints(ends)
    }
}

/// Extrapolation widens and keeps sides: with `x <= y` the value computed
/// for `x` lies at or below `x` and the value computed for `y` at or above
/// `y`, each half the difference further out, as far as `0..=255` allows
/// and with the fraction dropped. Equal values stay.
pub proof fn lemma_extrapolate_channel_widens(x: u8, y: u8)
    requires
        x <= y,
    ensures
        spec_extrapolate_channel(x, y) <= x,
        y <= spec_extrapolate_channel(y, x),
        3 * x - y <= 0 ==> spec_extrapolate_channel(x, y) == 0,
        3 * x - y >= 0 ==> 2 * spec_extrapolate_channel(x, y) <= 3 * x - y <= 2
            * spec_extrapolate_channel(x, y) + 1,
        3 * y - x >= 510 ==> spec_extrapolate_channel(y, x) == 255,
        3 * y - x <= 510 ==> 2 * spec_extrapolate_channel(y, x) <= 3 * y - x <= 2
            * spec_extrapolate_channel(y, x) + 1,
        x == y ==> spec_extrapolate_channel(x, y) == x,
{
}

/// The sorted and quantized pair is in 5:6:5 precision with the RGB565
/// number of `low` no larger than that of `high`, and apart from alpha it
/// does not depend on the order in which the two colors were given.
pub proof fn lemma_sort_quantize_canonical(a: Color, b: Color)
    ensures
        ({
            let fwd = spec_sort_quantize_endpoints(EndpointPair { low: a, high: b });
            let rev = spec_sort_quantize_endpoints(EndpointPair { low: b, high: a });
            &&& spec_is_565(fwd.low)
            &&& spec_is_565(fwd.high)
            &&& spec_encode_endpoint(fwd.low) <= spec_encode_endpoint(fwd.high)
            &&& spec_encode_endpoint(fwd.low) == spec_encode_endpoint(a)
                || spec_encode_endpoint(fwd.low) == spec_encode_endpoint(b)
            &&& spec_same_rgb(fwd.low, rev.low)
            &&& spec_same_rgb(fwd.high, rev.high)
        }),
{
    lemma_endpoint_round_trip(a);
    lemma_endpoint_round_trip(b);
    lemma_quantize_precision(a);
    lemma_quantize_precision(b);
    lemma_endpoint_code_injective(a, b);
}

/// Snaps both colors of a pair to 5:6:5 precision.
pub fn quantize_endpoints(ends: &EndpointPair) -> (out: EndpointPair)
    ensures
        out == spec_quantize_endpoints(*ends),
{
    EndpointPair { low: quantize(&ends.low), high: quantize(&ends.high) }
}

fn extrapolate_channel(x: u8, y: u8) -> (out: u8)
    ensures
        out == spec_extrapolate_channel(x, y),
{
    let base: u16 = EXTRAPOLATION_DEN * (y as u16);
    let limit: u16 = EXTRAPOLATION_DEN * 255;
    if x >= y {
        let scaled: u16 = base + EXTRAPOLATION_NUM * ((x - y) as u16);
        if scaled >= limit {
            255
        } else {
            (scaled / EXTRAPOLATION_DEN) as u8
        }
    } else {
        let pull: u16 = EXTRAPOLATION_NUM * ((y - x) as u16);
        if pull >= base {
            0
        } else {
            ((base - pull) / EXTRAPOLATION_DEN) as u8
        }
    }
}

/// Widens a pair along its color line: each color ends up at the other
/// color plus 3/2 of the way from it, half the difference further out.
pub fn extrapolate_endpoints(ends: &EndpointPair) -> (out: EndpointPair)
    ensures
        out == spec_extrapolate_endpoints(*ends),
{
    let a = ends.low;
    let b = ends.high;
    EndpointPair {
        low: Color {
            r: extrapolate_channel(a.r, b.r),
            g: extrapolate_channel(a.g, b.g),
            b: extrapolate_channel(a.b, b.b),
            a: a.a,
        },
        high: Color {
            r: extrapolate_channel(b.r, a.r),
            g: extrapolate_channel(b.g, a.g),
            b: extrapolate_channel(b.b, a.b),
            a: b.a,
        },
    }
}

/// Orders a pair by RGB565 number, ascending, and quantizes it.
pub fn sort_quantize_endpoints(ends: &EndpointPair) -> (out: EndpointPair)
    ensures
        out == spec_sort_quantize_endpoints(*ends),
{
    if encode_endpoint(&ends.low) > encode_endpoint(&ends.high) {
        quantize_endpoints(&EndpointPair { low: ends.high, high: ends.low })
    } else {
        quantize_endpoints(ends)
    }
}

} // verus!
