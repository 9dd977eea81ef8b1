//! The four colors that a block can show, and how well they fit its pixels:
//! the interpolation table of an endpoint pair, the distortion score of a
//! table against a block, and the 2-bit index that each pixel gets.

use vstd::prelude::*;
use vstd::arithmetic::div_mod::lemma_div_denominator;
use vstd::arithmetic::power2::{
    lemma2_to64, lemma_pow2_adds, lemma_pow2_pos, lemma_pow2_strictly_increases,
    lemma_pow2_unfold, pow2,
};
use crate::color::{
    lemma_pixel_dist_bounds, pixel_dist, spec_pixel_dist, Block, Color, MAX_PIXEL_DIST,
};
use crate::endpoints::EndpointPair;

verus! {

/// The four colors that the pixels of an encoded block choose from.
pub type Table = [Color; 4];

/// How many times the worst pixel of a block counts on top of the sum.
pub const OUTLIER_WEIGHT: u32 = 16;

/// The largest score of a block: every pixel as far off as a color can be.
pub const MAX_BLOCK_DIST: u32 = 6242400;

/// The weights of `high` and of `low`, in thirds, for each table entry.
/// Entry 0 is `high` itself and entry 1 is `low`; entries 2 and 3 lie a
/// third of the way from `high` to `low` and from `low` to `high`. Every
/// index above 3 counts as 3.
pub open spec fn spec_coefs(index: int) -> (int, int) {
    if index == 0 {
        (3, 0)
    } else if index == 1 {
        (0, 3)
    } else if index == 2 {
        (2, 1)
    } else {
        (1, 2)
    }
}

/// One channel of a table entry: `low` and `high` weighted in thirds, the
/// fraction dropped.
pub open spec fn spec_blend(low: u8, high: u8, w_high: int, w_low: int) -> u8 {
    ((w_low * low + w_high * high) / 3) as u8
}

/// The table entry of an endpoint pair at an index. Alpha is blended like
/// the other channels.
pub open spec fn spec_build_entry(ends: EndpointPair, index: int) -> Color {
    let (w_high, w_low) = spec_coefs(index);
    Color {
        r: spec_blend(ends.low.r, ends.high.r, w_high, w_low),
        g: spec_blend(ends.low.g, ends.high.g, w_high, w_low),
        b: spec_blend(ends.low.b, ends.high.b, w_high, w_low),
        a: spec_blend(ends.low.a, ends.high.a, w_high, w_low),
    }
}

/// The interpolation table of an endpoint pair.
pub open spec fn spec_build_table(ends: EndpointPair) -> Table {
    [
        spec_build_entry(ends, 0),
        spec_build_entry(ends, 1),
        spec_build_entry(ends, 2),
        spec_build_entry(ends, 3),
    ]
}

/// The smaller of two numbers.
pub open spec fn spec_min(x: int, y: int) -> int {
    if x <= y {
        x
    } else {
        y
    }
}

/// The larger of two numbers.
pub open spec fn spec_max(x: int, y: int) -> int {
    if x >= y {
        x
    } else {
        y
    }
}

/// The distance from a pixel to the closest of the four table entries.
pub open spec fn spec_nearest_dist(table: Table, pixel: Color) -> int {
    spec_min(
        spec_min(spec_pixel_dist(table[0], pixel), spec_pixel_dist(table[1], pixel)),
        spec_min(spec_pixel_dist(table[2], pixel), spec_pixel_dist(table[3], pixel)),
    )
}

/// The index of the table entry closest to a pixel; among equally close
/// entries the lowest index.
pub open spec fn spec_nearest_index(table: Table, pixel: Color) -> int {
    let d0 = spec_pixel_dist(table[0], pixel);
    let d1 = spec_pixel_dist(table[1], pixel);
    let d2 = spec_pixel_dist(table[2], pixel);
    let d3 = spec_pixel_dist(table[3], pixel);
    if d0 <= d1 && d0 <= d2 && d0 <= d3 {
        0
    } else if d1 <= d2 && d1 <= d3 {
        1
    } else if d2 <= d3 {
        2
    } else {
        3
    }
}

/// The nearest distances of the first `n` pixels of a block, summed.
pub open spec fn spec_dist_sum(table: Table, block: Block, n: int) -> int
    decreases n,
{
    if n <= 0 {
        0
    } else {
        spec_dist_sum(table, block, n - 1) + spec_nearest_dist(table, block[n - 1])
    }
}

/// The largest nearest distance among the first `n` pixels of a block.
pub open spec fn spec_dist_max(table: Table, block: Block, n: int) -> int
    decreases n,
{
    if n <= 0 {
        0
    } else {
        spec_max(spec_dist_max(table, block, n - 1), spec_nearest_dist(table, block[n - 1]))
    }
}

/// The distortion score of a table against a block: the nearest distances
/// of all 16 pixels summed, plus [`OUTLIER_WEIGHT`] times the largest of
/// them.
pub open spec fn spec_block_dist(table: Table, block: Block) -> int {
    spec_dist_sum(table, block, 16) + OUTLIER_WEIGHT * spec_dist_max(table, block, 16)
}

/// The nearest indices of the pixels from `k` on, two bits each, the pixel
/// at `k` in the lowest place.
pub open spec fn spec_index_stream(table: Table, block: Block, k: int) -> int
    decreases 16 - k,
{
    if k >= 16 {
        0
    } else {
        spec_nearest_index(table, block[k]) + 4 * spec_index_stream(table, block, k + 1)
    }
}

/// The 32-bit index stream of a block: the nearest index of every pixel,
/// two bits each, the first pixel in the lowest two bits and the last pixel
/// in the highest.
pub open spec fn spec_encode_pixels(table: Table, block: Block) -> int {
    spec_index_stream(table, block, 0)
}

/// Whether every channel of a color lies between those of two endpoints.
pub open spec fn spec_between(entry: Color, ends: EndpointPair) -> bool {
    &&& spec_min(ends.low.r as int, ends.high.r as int) <= entry.r <= spec_max(
        ends.low.r as int,
        ends.high.r as int,
    )
    &&& spec_min(ends.low.g as int, ends.high.g as int) <= entry.g <= spec_max(
        ends.low.g as int,
        ends.high.g as int,
    )
    &&& spec_min(ends.low.b as int, ends.high.b as int) <= entry.b <= spec_max(
        ends.low.b as int,
        ends.high.b as int,
    )
    &&& spec_min(ends.low.a as int, ends.high.a as int) <= entry.a <= spec_max(
        ends.low.a as int,
        ends.high.a as int,
    )
}

/// Entry 0 of a table is the `high` endpoint and entry 1 the `low` one;
/// every channel of entries 2 and 3 lies between those of the endpoints.
/// Equal endpoints give a table of four equal colors.
pub proof fn lemma_table_entries(ends: EndpointPair)
    ensures
        spec_build_table(ends)[0] == ends.high,
        spec_build_table(ends)[1] == ends.low,
        spec_between(spec_build_table(ends)[2], ends),
        spec_between(spec_build_table(ends)[3], ends),
        ends.low == ends.high ==> spec_build_table(ends)[2] == ends.low && spec_build_table(
            ends,
        )[3] == ends.low,
{
    lemma_blend_between(ends.low.r, ends.high.r);
    lemma_blend_between(ends.low.g, ends.high.g);
    lemma_blend_between(ends.low.b, ends.high.b);
    lemma_blend_between(ends.low.a, ends.high.a);
}

proof fn lemma_blend_between(low: u8, high: u8)
    ensures
        spec_blend(low, high, 3, 0) == high,
        spec_blend(low, high, 0, 3) == low,
        spec_min(low as int, high as int) <= spec_blend(low, high, 2, 1) <= spec_max(
            low as int,
            high as int,
        ),
        spec_min(low as int, high as int) <= spec_blend(low, high, 1, 2) <= spec_max(
            low as int,
            high as int,
        ),
        low == high ==> spec_blend(low, high, 2, 1) == low && spec_blend(low, high, 1, 2) == low,
{
    let a = (1 * low + 2 * high) / 3;
    let b = (2 * low + 1 * high) / 3;
    assert(3 * a <= low + 2 * high < 3 * a + 3);
    assert(3 * b <= 2 * low + high < 3 * b + 3);
}

/// The nearest index names an entry at the nearest distance, no entry is
/// closer, and every entry before it is strictly further away.
pub proof fn lemma_nearest(table: Table, pixel: Color)
    ensures
        0 <= spec_nearest_index(table, pixel) < 4,
        0 <= spec_nearest_dist(table, pixel) <= MAX_PIXEL_DIST,
        spec_pixel_dist(table[spec_nearest_index(table, pixel)], pixel) == spec_nearest_dist(
            table,
            pixel,
        ),
        forall|i: int|
            0 <= i < 4 ==> spec_nearest_dist(table, pixel) <= spec_pixel_dist(
                #[trigger] table[i],
                pixel,
            ),
        forall|i: int|
            0 <= i < spec_nearest_index(table, pixel) ==> spec_nearest_dist(table, pixel)
                < spec_pixel_dist(#[trigger] table[i], pixel),
{
    lemma_pixel_dist_bounds(table[0], pixel);
    lemma_pixel_dist_bounds(table[1], pixel);
    lemma_pixel_dist_bounds(table[2], pixel);
    lemma_pixel_dist_bounds(table[3], pixel);
}

/// The sum and the maximum over the first `n` pixels are bounded, the
/// maximum is no larger than the sum, and each of those pixels is at most
/// the maximum away from the table.
pub proof fn lemma_dist_bounds(table: Table, block: Block, n: int)
    requires
        0 <= n <= 16,
    ensures
        0 <= spec_dist_max(table, block, n) <= spec_dist_sum(table, block, n),
        spec_dist_sum(table, block, n) <= n * MAX_PIXEL_DIST,
        spec_dist_max(table, block, n) <= MAX_PIXEL_DIST,
        forall|i: int|
            0 <= i < n ==> spec_nearest_dist(table, #[trigger] block[i]) <= spec_dist_max(
                table,
                block,
                n,
            ),
    decreases n,
{
    if n > 0 {
        lemma_dist_bounds(table, block, n - 1);
        lemma_nearest(table, block[n - 1]);
    }
}

/// The score of a block is between 0 and [`MAX_BLOCK_DIST`]. It is 0
/// exactly when every pixel is at distance 0 from its nearest table entry.
pub proof fn lemma_block_dist_bounds(table: Table, block: Block)
    ensures
        0 <= spec_block_dist(table, block) <= MAX_BLOCK_DIST,
        spec_block_dist(table, block) == 0 <==> forall|i: int|
            0 <= i < 16 ==> spec_nearest_dist(table, #[trigger] block[i]) == 0,
{
    lemma_dist_bounds(table, block, 16);
    assert forall|i: int| 0 <= i < 16 implies 0 <= spec_nearest_dist(table, #[trigger] block[i])
    by {
        lemma_nearest(table, block[i]);
    }
    if forall|i: int| 0 <= i < 16 ==> spec_nearest_dist(table, #[trigger] block[i]) == 0 {
        lemma_dist_zero(table, block, 16);
    }
}

proof fn lemma_dist_zero(table: Table, block: Block, n: int)
    requires
        0 <= n <= 16,
        forall|i: int| 0 <= i < n ==> spec_nearest_dist(table, #[trigger] block[i]) == 0,
    ensures
        spec_dist_sum(table, block, n) == 0,
        spec_dist_max(table, block, n) == 0,
    decreases n,
{
    if n > 0 {
        lemma_dist_zero(table, block, n - 1);
        assert(spec_nearest_dist(table, block[n - 1]) == 0);
    }
}

/// The stream from pixel `k` on fits in two bits for each pixel left.
pub proof fn lemma_index_stream_bounds(table: Table, block: Block, k: int)
    requires
        0 <= k <= 16,
    ensures
        0 <= spec_index_stream(table, block, k) < pow2((2 * (16 - k)) as nat),
    decreases 16 - k,
{
    if k >= 16 {
        lemma2_to64();
    } else {
        lemma_index_stream_bounds(table, block, k + 1);
        lemma_nearest(table, block[k]);
        lemma_pow2_unfold((2 * (16 - k)) as nat);
        lemma_pow2_unfold((2 * (16 - k) - 1) as nat);
    }
}

proof fn lemma_index_field(table: Table, block: Block, j: int, k: int)
    requires
        0 <= j <= k < 16,
    ensures
        (spec_index_stream(table, block, j) / pow2((2 * (k - j)) as nat) as int) % 4
            == spec_nearest_index(table, block[k]),
    decreases k - j,
{
    lemma2_to64();
    lemma_nearest(table, block[j]);
    lemma_index_stream_bounds(table, block, j + 1);
    let whole = spec_index_stream(table, block, j);
    let rest = spec_index_stream(table, block, j + 1);
    assert(whole == spec_nearest_index(table, block[j]) + 4 * rest);
    if j < k {
        let step = pow2((2 * (k - j - 1)) as nat) as int;
        lemma_index_field(table, block, j + 1, k);
        lemma_pow2_pos((2 * (k - j - 1)) as nat);
        lemma_pow2_adds(2, (2 * (k - j - 1)) as nat);
        assert(pow2((2 * (k - j)) as nat) == 4 * step);
        lemma_div_denominator(whole, 4, step);
        assert(whole / 4 == rest);
        assert(whole / (4 * step) == rest / step);
    } else {
        assert(pow2((2 * (k - j)) as nat) == 1);
        assert(whole / 1 == whole);
        assert(whole % 4 == spec_nearest_index(table, block[j]));
    }
}

/// The index of pixel `k` can be read back from the index stream: it is
/// the two bits from bit `2 * k` on.
pub proof fn lemma_index_of_pixel(table: Table, block: Block, k: int)
    requires
        0 <= k < 16,
    ensures
        0 <= spec_encode_pixels(table, block) < 0x1_0000_0000,
        (spec_encode_pixels(table, block) / pow2((2 * k) as nat) as int) % 4
            == spec_nearest_index(table, block[k]),
{
    lemma2_to64();
    lemma_index_stream_bounds(table, block, 0);
    lemma_index_field(table, block, 0, k);
}

fn blend(low: u8, high: u8, w_high: u16, w_low: u16) -> (out: u8)
    requires
        w_high + w_low == 3,
    ensures
        out == spec_blend(low, high, w_high as int, w_low as int),
{
    assert(0 <= w_low * low + w_high * high <= 765) by (nonlinear_arith)
        requires
            w_high + w_low == 3,
    ;
    ((w_low * (low as u16) + w_high * (high as u16)) / 3) as u8
}

/// Builds the table entry of an endpoint pair at an index.
pub fn build_entry(ends: &EndpointPair, index: usize) -> (entry: Color)
    ensures
        entry == spec_build_entry(*ends, index as int),
{
    let (w_high, w_low): (u16, u16) = match index {
        0 => (3, 0),
        1 => (0, 3),
        2 => (2, 1),
        _ => (1, 2),
    };
    Color {
        r: blend(ends.low.r, ends.high.r, w_high, w_low),
        g: blend(ends.low.g, ends.high.g, w_high, w_low),
        b: blend(ends.low.b, ends.high.b, w_high, w_low),
        a: blend(ends.low.a, ends.high.a, w_high, w_low),
    }
}

/// Builds the interpolation table of an endpoint pair.
pub fn build_table(ends: &EndpointPair) -> (table: Table)
    ensures
        table == spec_build_table(*ends),
{
    let table: Table = [
        build_entry(ends, 0),
        build_entry(ends, 1),
        build_entry(ends, 2),
        build_entry(ends, 3),
    ];
    assert(table =~= spec_build_table(*ends));
    table
}

/// Finds the table entry closest to a pixel: its index, the lowest among
/// equally close entries, and its distance.
pub fn nearest_entry(table: &Table, pixel: &Color) -> (found: (u32, u32))
    ensures
        found.0 == spec_nearest_index(*table, *pixel),
        found.1 == spec_nearest_dist(*table, *pixel),
        found.0 < 4,
        found.1 <= MAX_PIXEL_DIST,
{
    let mut best: u32 = 0;
    let mut best_dist: u32 = pixel_dist(&table[0], pixel);
    let d1 = pixel_dist(&table[1], pixel);
    if d1 < best_dist {
        best = 1;
        best_dist = d1;
    }
    let d2 = pixel_dist(&table[2], pixel);
    if d2 < best_dist {
        best = 2;
        best_dist = d2;
    }
    let d3 = pixel_dist(&table[3], pixel);
    if d3 < best_dist {
        best = 3;
        best_dist = d3;
    }
    (best, best_dist)
}

/// Scores a table against the 16 pixels of a block.
pub fn block_dist(table: &Table, pixels: &Block) -> (score: u32)
    ensures
        score == spec_block_dist(*table, *pixels),
        score <= MAX_BLOCK_DIST,
{
    let mut sum: u32 = 0;
    let mut max: u32 = 0;
    for i in 0..16usize
        invariant
            sum == spec_dist_sum(*table, *pixels, i as int),
            max == spec_dist_max(*table, *pixels, i as int),
    {
        proof {
            lemma_dist_bounds(*table, *pixels, i as int);
        }
        let e = nearest_entry(table, &pixels[i]).1;
        sum += e;
        if e > max {
            max = e;
        }
    }
    proof {
        lemma_dist_bounds(*table, *pixels, 16);
    }
    sum + max * OUTLIER_WEIGHT
}

/// Assigns each pixel of a block the index of its closest table entry and
/// packs the 16 indices into the 32-bit stream.
pub fn encode_pixels(table: &Table, pixels: &Block) -> (mask: u32)
    ensures
        mask == spec_encode_pixels(*table, *pixels),
{
    let mut mask: u32 = 0;
    let mut k: usize = 16;
    while k > 0
        invariant
            k <= 16,
            mask == spec_index_stream(*table, *pixels, k as int),
        decreases k,
    {
        k -= 1;
        let best = nearest_entry(table, &pixels[k]).0;
        proof {
            lemma_index_stream_bounds(*table, *pixels, k + 1);
            lemma2_to64();
            if k > 0 {
                lemma_pow2_strictly_increases((2 * (16 - (k + 1))) as nat, 30);
            }
            assert(mask < 0x4000_0000);
            assert((mask << 2) | best == 4 * mask + best) by (bit_vector)
                requires
                    mask < 0x4000_0000,
                    best < 4,
            ;
        }
        mask = (mask << 2) | best;
    }
    mask
}

} // verus!
