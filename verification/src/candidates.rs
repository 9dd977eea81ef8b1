//! Candidate endpoint pairs of a block: the componentwise extremes of its
//! pixels and, at higher quality, every pair of its pixels, plain and
//! extrapolated.

use vstd::prelude::*;
use crate::color::{lemma_quantize_precision, spec_encode_endpoint, spec_is_565, Block, Color};
use crate::endpoints::{
    extrapolate_endpoints, lemma_sort_quantize_canonical, quantize_endpoints,
    sort_quantize_endpoints, spec_extrapolate_endpoints, spec_quantize_endpoints,
    spec_sort_quantize_endpoints, EndpointPair,
};

verus! {

/// The number of pairs of distinct pixels in a block.
pub const PAIR_COUNT: usize = 120;

/// The smaller of two channel values.
pub open spec fn spec_min_channel(x: u8, y: u8) -> u8 {
    if x <= y {
        x
    } else {
        y
    }
}

/// The larger of two channel values.
pub open spec fn spec_max_channel(x: u8, y: u8) -> u8 {
    if x >= y {
        x
    } else {
        y
    }
}

/// The channel-by-channel minimum of the first `n` pixels of a block, alpha
/// included. Of no pixels it is 255 in every channel.
pub open spec fn spec_min_color(block: Block, n: int) -> Color
    decreases n,
{
    if n <= 0 {
        Color { r: 255, g: 255, b: 255, a: 255 }
    } else {
        let m = spec_min_color(block, n - 1);
        let p = block[n - 1];
        Color {
            r: spec_min_channel(m.r, p.r),
            g: spec_min_channel(m.g, p.g),
            b: spec_min_channel(m.b, p.b),
            a: spec_min_channel(m.a, p.a),
        }
    }
}

/// The channel-by-channel maximum of the first `n` pixels of a block, alpha
/// included. Of no pixels it is 0 in every channel.
pub open spec fn spec_max_color(block: Block, n: int) -> Color
    decreases n,
{
    if n <= 0 {
        Color { r: 0, g: 0, b: 0, a: 0 }
    } else {
        let m = spec_max_color(block, n - 1);
        let p = block[n - 1];
        Color {
            r: spec_max_channel(m.r, p.r),
            g: spec_max_channel(m.g, p.g),
            b: spec_max_channel(m.b, p.b),
            a: spec_max_channel(m.a, p.a),
        }
    }
}

/// The channel-by-channel minimum and maximum of the 16 pixels of a block.
pub open spec fn spec_minmax(block: Block) -> EndpointPair {
    EndpointPair { low: spec_min_color(block, 16), high: spec_max_color(block, 16) }
}

/// Whether all 16 pixels of a block are the same color, alpha included.
pub open spec fn spec_is_flat(block: Block) -> bool {
    forall|i: int| 0 <= i < 16 ==> #[trigger] block[i] == block[0]
}

/// How many pixel pairs `(i', j')` with `i' < j' < 16` have `i' < i`.
pub open spec fn spec_row_start(i: int) -> int
    decreases i,
{
    if i <= 0 {
        0
    } else {
        spec_row_start(i - 1) + 16 - i
    }
}

/// The place of the pixel pair `(i, j)`, `i < j < 16`, among all such pairs
/// in ascending order of `i` and then of `j`.
pub open spec fn spec_pair_index(i: int, j: int) -> int {
    spec_row_start(i) + j - i - 1
}

/// The pair that stands `k` places after `(row, row + 1)`.
pub open spec fn spec_pair_from(row: int, k: int) -> (int, int)
    decreases 15 - row,
{
    if row >= 14 || k < 15 - row {
        (row, row + 1 + k)
    } else {
        spec_pair_from(row + 1, k - (15 - row))
    }
}

/// The pixel pair at place `k`, `0 <= k < 120`: the inverse of
/// [`spec_pair_index`].
pub open spec fn spec_pair_at(k: int) -> (int, int) {
    spec_pair_from(0, k)
}

/// Whether the pixel pairs of a block are searched: at quality above 0,
/// unless minimum and maximum of the block coincide.
pub open spec fn spec_searches(block: Block, quality: u8) -> bool {
    quality > 0 && spec_minmax(block).low != spec_minmax(block).high
}

/// How many candidates a number of pixel pairs gives: one each at quality
/// 1, two each above.
pub open spec fn spec_pair_candidates(quality: u8, pairs: int) -> int {
    if quality > 1 {
        2 * pairs
    } else {
        pairs
    }
}

/// The candidate at place `k` among those that come from pixel pairs. At
/// quality 1 it is the sorted and quantized pair at place `k`; above, the
/// pair at place `k / 2`, plain where `k` is even and extrapolated first
/// where `k` is odd.
pub open spec fn spec_pair_candidate(block: Block, quality: u8, k: int) -> EndpointPair {
    if quality > 1 {
        let (i, j) = spec_pair_at(k / 2);
        let px = EndpointPair { low: block[i], high: block[j] };
        if k % 2 == 0 {
            spec_sort_quantize_endpoints(px)
        } else {
            spec_sort_quantize_endpoints(spec_extrapolate_endpoints(px))
        }
    } else {
        let (i, j) = spec_pair_at(k);
        spec_sort_quantize_endpoints(EndpointPair { low: block[i], high: block[j] })
    }
}

/// The candidate endpoint pairs of a block, in the order in which they are
/// tried: first the quantized minimum and maximum, then, where the pixel
/// pairs are searched, the candidates of all 120 pairs.
pub open spec fn spec_build_endpoints(block: Block, quality: u8) -> Seq<EndpointPair> {
    let baseline = seq![spec_quantize_endpoints(spec_minmax(block))];
    if spec_searches(block, quality) {
        baseline + Seq::new(
            spec_pair_candidates(quality, PAIR_COUNT as int) as nat,
            |k: int| spec_pair_candidate(block, quality, k),
        )
    } else {
        baseline
    }
}

/// Minimum and maximum over the first `n` pixels bound every channel of
/// each of those pixels, and where all of them are one color, both are that
/// color.
pub proof fn lemma_min_max_color(block: Block, n: int)
    requires
        0 <= n <= 16,
    ensures
        forall|i: int|
            0 <= i < n ==> {
                let p = #[trigger] block[i];
                let lo = spec_min_color(block, n);
                let hi = spec_max_color(block, n);
                &&& lo.r <= p.r <= hi.r
                &&& lo.g <= p.g <= hi.g
                &&& lo.b <= p.b <= hi.b
                &&& lo.a <= p.a <= hi.a
            },
        n > 0 && (forall|i: int| 0 <= i < n ==> #[trigger] block[i] == block[0]) ==> {
            &&& spec_min_color(block, n) == block[0]
            &&& spec_max_color(block, n) == block[0]
        },
    decreases n,
{
    if n > 0 {
        lemma_min_max_color(block, n - 1);
        if n == 1 {
            assert(spec_min_color(block, 0) == Color { r: 255, g: 255, b: 255, a: 255 });
            assert(spec_max_color(block, 0) == Color { r: 0, g: 0, b: 0, a: 0 });
        } else if forall|i: int| 0 <= i < n ==> #[trigger] block[i] == block[0] {
            assert(block[n - 1] == block[0]);
        }
    }
}

/// A block is flat exactly when its minimum and maximum coincide, and then
/// both are its color.
pub proof fn lemma_flat_minmax(block: Block)
    ensures
        spec_is_flat(block) <==> spec_minmax(block).low == spec_minmax(block).high,
        spec_is_flat(block) ==> spec_minmax(block).low == block[0],
{
    lemma_min_max_color(block, 16);
    if spec_minmax(block).low == spec_minmax(block).high {
        assert forall|i: int| 0 <= i < 16 implies #[trigger] block[i] == block[0] by {
            let p = block[i];
            let q = block[0];
            let lo = spec_min_color(block, 16);
            assert(lo.r <= p.r <= lo.r && lo.r <= q.r <= lo.r);
        }
    }
}

/// Rows start later and later, the first at 0; 120 pairs lie before row 15.
pub proof fn lemma_row_start(a: int, b: int)
    requires
        0 <= a <= b <= 15,
    ensures
        0 <= spec_row_start(a) <= spec_row_start(b),
        spec_row_start(b) - spec_row_start(a) >= b - a,
        spec_row_start(0) == 0,
        spec_row_start(15) == PAIR_COUNT,
        b == 15 ==> spec_row_start(a) + (15 - a) <= PAIR_COUNT,
    decreases b - a,
{
    assert(spec_row_start(15) == 120) by {
        reveal_with_fuel(spec_row_start, 16);
    }
    lemma_row_start_positive(a);
    if a < b {
        lemma_row_start(a + 1, b);
        assert(spec_row_start(a + 1) == spec_row_start(a) + 15 - a);
    }
}

proof fn lemma_row_start_positive(a: int)
    requires
        0 <= a <= 15,
    ensures
        0 <= spec_row_start(a),
    decreases a,
{
    if a > 0 {
        lemma_row_start_positive(a - 1);
    }
}

proof fn lemma_pair_from(row: int, i: int, j: int)
    requires
        0 <= row <= i < j < 16,
    ensures
        spec_pair_from(row, spec_row_start(i) - spec_row_start(row) + j - i - 1) == (i, j),
    decreases i - row,
{
    if row < i {
        lemma_row_start(row + 1, i);
        assert(spec_row_start(row + 1) == spec_row_start(row) + 15 - row);
        lemma_pair_from(row + 1, i, j);
    }
}

/// Every pixel pair has a place below 120, and the pair at that place is
/// the pair itself.
pub proof fn lemma_pair_index(i: int, j: int)
    requires
        0 <= i < j < 16,
    ensures
        0 <= spec_pair_index(i, j) < PAIR_COUNT,
        spec_pair_at(spec_pair_index(i, j)) == (i, j),
{
    lemma_row_start(0, i);
    lemma_row_start(i, 15);
    lemma_pair_from(0, i, j);
}

proof fn lemma_pair_from_range(row: int, k: int)
    requires
        0 <= row <= 14,
        0 <= k < PAIR_COUNT - spec_row_start(row),
    ensures
        ({
            let (i, j) = spec_pair_from(row, k);
            row <= i < j < 16 && spec_pair_index(i, j) == spec_row_start(row) + k
        }),
    decreases 15 - row,
{
    lemma_row_start(row, 15);
    assert(spec_row_start(row + 1) == spec_row_start(row) + 15 - row);
    if row >= 14 {
        assert(spec_row_start(15) == spec_row_start(14) + 1);
    } else if k >= 15 - row {
        lemma_pair_from_range(row + 1, k - (15 - row));
    }
}

/// Every place below 120 holds a pixel pair `(i, j)` with `i < j < 16`,
/// whose place it is.
pub proof fn lemma_pair_at(k: int)
    requires
        0 <= k < PAIR_COUNT,
    ensures
        ({
            let (i, j) = spec_pair_at(k);
            0 <= i < j < 16 && spec_pair_index(i, j) == k
        }),
{
    lemma_row_start(0, 15);
    lemma_pair_from_range(0, k);
}

/// The shape of the candidate list. It holds 1 pair where the pixel pairs
/// are not searched, else 121 at quality 1 and 241 above. The first is the
/// quantized minimum and maximum. Where the pairs are searched, the pixels
/// `i < j` give the candidate at place `1 + spec_pair_index(i, j)` at
/// quality 1; above, the two candidates from place
/// `1 + 2 * spec_pair_index(i, j)` on, the plain one first. Every quality
/// above 2 gives the list of quality 2.
pub proof fn lemma_build_endpoints(block: Block, quality: u8, i: int, j: int)
    requires
        0 <= i < j < 16,
    ensures
        ({
            let out = spec_build_endpoints(block, quality);
            let px = EndpointPair { low: block[i], high: block[j] };
            let at = 1 + spec_pair_candidates(quality, spec_pair_index(i, j));
            &&& out.len() == 1 + if spec_searches(block, quality) {
                spec_pair_candidates(quality, PAIR_COUNT as int)
            } else {
                0
            }
            &&& out[0] == spec_quantize_endpoints(spec_minmax(block))
            &&& 1 <= at
            &&& spec_searches(block, quality) ==> {
                &&& at < out.len()
                &&& out[at] == spec_sort_quantize_endpoints(px)
            }
            &&& spec_searches(block, quality) && quality > 1 ==> {
                &&& at + 1 < out.len()
                &&& out[at + 1] == spec_sort_quantize_endpoints(spec_extrapolate_endpoints(px))
            }
            &&& quality >= 2 ==> out == spec_build_endpoints(block, 2)
        }),
{
    lemma_pair_index(i, j);
    if quality >= 2 {
        assert(spec_build_endpoints(block, quality) =~= spec_build_endpoints(block, 2));
    }
}

/// Every candidate is in 5:6:5 precision, and the RGB565 number of its
/// `low` is no larger than that of its `high`.
pub proof fn lemma_candidates_quantized(block: Block, quality: u8, k: int)
    requires
        0 <= k < spec_build_endpoints(block, quality).len(),
    ensures
        spec_is_565(spec_build_endpoints(block, quality)[k].low),
        spec_is_565(spec_build_endpoints(block, quality)[k].high),
        spec_encode_endpoint(spec_build_endpoints(block, quality)[k].low) <= spec_encode_endpoint(
            spec_build_endpoints(block, quality)[k].high,
        ),
{
    let out = spec_build_endpoints(block, quality);
    if k == 0 {
        let ends = spec_minmax(block);
        lemma_min_max_color(block, 16);
        assert(ends.low.r <= block[0].r <= ends.high.r);
        lemma_quantize_precision(ends.low);
        lemma_quantize_precision(ends.high);
    } else {
        let c = spec_pair_candidate(block, quality, k - 1);
        assert(out[k] == c);
        let (i, j) = if quality > 1 {
            spec_pair_at((k - 1) / 2)
        } else {
            spec_pair_at(k - 1)
        };
        let px = EndpointPair { low: block[i], high: block[j] };
        let ex = spec_extrapolate_endpoints(px);
        lemma_sort_quantize_canonical(px.low, px.high);
        lemma_sort_quantize_canonical(ex.low, ex.high);
    }
}

/// Finds the channel-by-channel minimum and maximum of a block.
pub fn minmax(pixels: &Block) -> (ends: EndpointPair)
    ensures
        ends == spec_minmax(*pixels),
{
    let mut min = Color { r: 255, g: 255, b: 255, a: 255 };
    let mut max = Color { r: 0, g: 0, b: 0, a: 0 };
    for i in 0..16usize
        invariant
            min == spec_min_color(*pixels, i as int),
            max == spec_max_color(*pixels, i as int),
    {
        let p = pixels[i];
        min = Color {
            r: if min.r <= p.r { min.r } else { p.r },
            g: if min.g <= p.g { min.g } else { p.g },
            b: if min.b <= p.b { min.b } else { p.b },
            a: if min.a <= p.a { min.a } else { p.a },
        };
        max = Color {
            r: if max.r >= p.r { max.r } else { p.r },
            g: if max.g >= p.g { max.g } else { p.g },
            b: if max.b >= p.b { max.b } else { p.b },
            a: if max.a >= p.a { max.a } else { p.a },
        };
    }
    EndpointPair { low: min, high: max }
}

/// Lists the candidate endpoint pairs of a block for a quality level.
pub fn build_endpoints(pixels: &Block, quality: u8) -> (out: Vec<EndpointPair>)
    ensures
        out@ == spec_build_endpoints(*pixels, quality),
        out@.len() >= 1,
{
    let ends = minmax(pixels);
    let ghost full = spec_build_endpoints(*pixels, quality);
    let mut out: Vec<EndpointPair> = Vec::new();
    out.push(quantize_endpoints(&ends));
    assert(out@ =~= full.take(1));
    if quality > 0 && ends.low != ends.high {
        let mut i: usize = 0;
        while i < 15
            invariant
                i <= 15,
                full == spec_build_endpoints(*pixels, quality),
                spec_searches(*pixels, quality),
                out@ == full.take(1 + spec_pair_candidates(quality, spec_row_start(i as int))),
            decreases 15 - i,
        {
            let mut j: usize = i + 1;
            while j < 16
                invariant
                    i < 15,
                    i < j <= 16,
                    full == spec_build_endpoints(*pixels, quality),
                    spec_searches(*pixels, quality),
                    out@ == full.take(
                        1 + spec_pair_candidates(quality, spec_pair_index(i as int, j as int)),
                    ),
                decreases 16 - j,
            {
                proof {
                    lemma_build_endpoints(*pixels, quality, i as int, j as int);
                }
                let ghost at = 1 + spec_pair_candidates(
                    quality,
                    spec_pair_index(i as int, j as int),
                );
                let px = EndpointPair { low: pixels[i], high: pixels[j] };
                out.push(sort_quantize_endpoints(&px));
                assert(out@ =~= full.take(at + 1));
                if quality > 1 {
                    out.push(sort_quantize_endpoints(&extrapolate_endpoints(&px)));
                    assert(out@ =~= full.take(at + 2));
                }
                j += 1;
            }
            proof {
                assert(spec_row_start(i + 1) == spec_row_start(i as int) + 15 - i);
            }
            i += 1;
        }
        proof {
            lemma_row_start(0, 15);
            assert(out@ =~= full);
        }
    } else {
        assert(out@ =~= full);
    }
    out
}

} // verus!
