//! Encoding one block: trying every candidate endpoint pair, keeping the
//! first of the best, and packing it with the pixel indices into 64 bits.

use vstd::prelude::*;
use vstd::arithmetic::div_mod::lemma_fundamental_div_mod_converse;
use vstd::arithmetic::power2::lemma2_to64;
use crate::candidates::{
    build_endpoints, lemma_build_endpoints, lemma_candidates_quantized, lemma_flat_minmax,
    spec_build_endpoints, spec_is_flat, spec_minmax,
};
use crate::color::{
    encode_endpoint, lemma_endpoint_round_trip, lemma_pixel_dist_bounds,
    lemma_quantize_precision, spec_decode_endpoint, spec_encode_endpoint, spec_is_565,
    spec_pixel_dist, spec_quantize, spec_same_rgb, Block,
};
use crate::endpoints::{spec_quantize_endpoints, EndpointPair};
use crate::table::{
    block_dist, build_table, encode_pixels, lemma_block_dist_bounds, lemma_index_stream_bounds,
    lemma_table_entries, spec_block_dist, spec_build_table, spec_dist_max, spec_dist_sum,
    spec_encode_pixels, spec_index_stream, Table, MAX_BLOCK_DIST, OUTLIER_WEIGHT,
};

verus! {

/// The score of the candidate at place `k` against a block.
#[verifier::opaque]
pub open spec fn spec_candidate_dist(cands: Seq<EndpointPair>, block: Block, k: int) -> int {
    spec_block_dist(spec_build_table(cands[k]), block)
}

/// The place of the best among the first `n` candidates: the one with the
/// least score, and of several with that score the first.
pub open spec fn spec_best(cands: Seq<EndpointPair>, block: Block, n: int) -> int
    decreases n,
{
    if n <= 1 {
        0
    } else {
        let before = spec_best(cands, block, n - 1);
        if spec_candidate_dist(cands, block, n - 1) < spec_candidate_dist(cands, block, before) {
            n - 1
        } else {
            before
        }
    }
}

/// The endpoint pair that a block is encoded with.
pub open spec fn spec_selected(block: Block, quality: u8) -> EndpointPair {
    let cands = spec_build_endpoints(block, quality);
    cands[spec_best(cands, block, cands.len() as int)]
}

/// The 64-bit value of a block: the index stream in the upper 32 bits, then
/// the RGB565 number of `low`, and that of `high` in the lowest 16 bits.
pub open spec fn spec_pack(indices: int, ends: EndpointPair) -> int {
    indices * 0x1_0000_0000 + spec_encode_endpoint(ends.low) * 0x1_0000 + spec_encode_endpoint(
        ends.high,
    )
}

/// The packed value of a block and its distortion score.
#[verifier::opaque]
pub open spec fn spec_encode_block(block: Block, quality: u8) -> (int, int) {
    let ends = spec_selected(block, quality);
    let table = spec_build_table(ends);
    (spec_pack(spec_encode_pixels(table, block), ends), spec_block_dist(table, block))
}

/// The best of the first `n` candidates lies among them, none of them
/// scores less, and all before it score more.
pub proof fn lemma_best(cands: Seq<EndpointPair>, block: Block, n: int)
    requires
        1 <= n <= cands.len(),
    ensures
        0 <= spec_best(cands, block, n) < n,
        forall|k: int|
            0 <= k < n ==> spec_candidate_dist(cands, block, spec_best(cands, block, n))
                <= #[trigger] spec_candidate_dist(cands, block, k),
        forall|k: int|
            0 <= k < spec_best(cands, block, n) ==> spec_candidate_dist(
                cands,
                block,
                spec_best(cands, block, n),
            ) < #[trigger] spec_candidate_dist(cands, block, k),
    decreases n,
{
    if n > 1 {
        lemma_best(cands, block, n - 1);
    }
}

/// The selected pair is one of the candidates, in 5:6:5 precision with the
/// RGB565 number of `low` no larger than that of `high`, and no candidate
/// scores less than it does: in particular not the quantized minimum and
/// maximum of the block, which is always tried.
pub proof fn lemma_selected_is_best(block: Block, quality: u8)
    ensures
        spec_build_endpoints(block, quality).contains(spec_selected(block, quality)),
        spec_is_565(spec_selected(block, quality).low),
        spec_is_565(spec_selected(block, quality).high),
        spec_encode_endpoint(spec_selected(block, quality).low) <= spec_encode_endpoint(
            spec_selected(block, quality).high,
        ),
        forall|k: int|
            0 <= k < spec_build_endpoints(block, quality).len() ==> spec_encode_block(
                block,
                quality,
            ).1 <= #[trigger] spec_candidate_dist(spec_build_endpoints(block, quality), block, k),
        spec_encode_block(block, quality).1 <= spec_block_dist(
            spec_build_table(spec_quantize_endpoints(spec_minmax(block))),
            block,
        ),
{
    reveal(spec_encode_block);
    reveal(spec_candidate_dist);
    let cands = spec_build_endpoints(block, quality);
    lemma_best(cands, block, cands.len() as int);
    let best = spec_best(cands, block, cands.len() as int);
    lemma_candidates_quantized(block, quality, best);
    assert(spec_candidate_dist(cands, block, best) <= spec_candidate_dist(cands, block, 0));
}

/// The fields of a packed value can be read back from it by division.
pub proof fn lemma_pack_fields(indices: int, ends: EndpointPair)
    requires
        0 <= indices < 0x1_0000_0000,
    ensures
        0 <= spec_pack(indices, ends) < 0x1_0000_0000_0000_0000,
        spec_pack(indices, ends) / 0x1_0000_0000 == indices,
        (spec_pack(indices, ends) / 0x1_0000) % 0x1_0000 == spec_encode_endpoint(ends.low),
        spec_pack(indices, ends) % 0x1_0000 == spec_encode_endpoint(ends.high),
{
    let low = spec_encode_endpoint(ends.low);
    let high = spec_encode_endpoint(ends.high);
    let packed = spec_pack(indices, ends);
    lemma_endpoint_round_trip(ends.low);
    lemma_endpoint_round_trip(ends.high);
    lemma_fundamental_div_mod_converse(packed, 0x1_0000_0000, indices, low * 0x1_0000 + high);
    lemma_fundamental_div_mod_converse(packed, 0x1_0000, indices * 0x1_0000 + low, high);
    lemma_fundamental_div_mod_converse(indices * 0x1_0000 + low, 0x1_0000, indices, low);
}

/// The three fields of the packed value of a block are the index stream
/// and the RGB565 numbers of the selected pair, and these decode to red,
/// green and blue of that pair. A table built from the decoded endpoints
/// shows the colors of the selected table and scores as it does.
pub proof fn lemma_packed_round_trip(block: Block, quality: u8)
    ensures
        ({
            let ends = spec_selected(block, quality);
            let packed = spec_encode_block(block, quality).0;
            let low = spec_decode_endpoint((packed / 0x1_0000) % 0x1_0000);
            let high = spec_decode_endpoint(packed % 0x1_0000);
            let table = spec_build_table(ends);
            let decoded = spec_build_table(EndpointPair { low, high });
            &&& 0 <= packed < 0x1_0000_0000_0000_0000
            &&& packed / 0x1_0000_0000 == spec_encode_pixels(table, block)
            &&& (packed / 0x1_0000) % 0x1_0000 == spec_encode_endpoint(ends.low)
            &&& packed % 0x1_0000 == spec_encode_endpoint(ends.high)
            &&& spec_same_rgb(low, ends.low)
            &&& spec_same_rgb(high, ends.high)
            &&& forall|i: int| 0 <= i < 4 ==> spec_same_rgb(#[trigger] decoded[i], table[i])
            &&& spec_block_dist(decoded, block) == spec_block_dist(table, block)
        }),
{
    reveal(spec_encode_block);
    let ends = spec_selected(block, quality);
    let table = spec_build_table(ends);
    let indices = spec_encode_pixels(table, block);
    assert(0 <= indices < 0x1_0000_0000) by {
        lemma_index_stream_bounds(table, block, 0);
        lemma2_to64();
    }
    lemma_pack_fields(indices, ends);
    let low = spec_decode_endpoint(spec_encode_endpoint(ends.low));
    let high = spec_decode_endpoint(spec_encode_endpoint(ends.high));
    assert(spec_same_rgb(low, ends.low) && spec_same_rgb(high, ends.high)) by {
        lemma_selected_is_best(block, quality);
        lemma_endpoint_round_trip(ends.low);
        lemma_endpoint_round_trip(ends.high);
        lemma_quantize_precision(ends.low);
        lemma_quantize_precision(ends.high);
    }
    let decoded = spec_build_table(EndpointPair { low, high });
    assert(spec_same_rgb(decoded[0], table[0]));
    assert(spec_same_rgb(decoded[1], table[1]));
    assert(spec_same_rgb(decoded[2], table[2]));
    assert(spec_same_rgb(decoded[3], table[3]));
    lemma_same_rgb_tables(decoded, table, block, 16);
}

/// Tables that show the same red, green and blue entry by entry are at the
/// same distances from every pixel.
proof fn lemma_same_rgb_tables(a: Table, b: Table, block: Block, n: int)
    requires
        0 <= n <= 16,
        forall|i: int| 0 <= i < 4 ==> spec_same_rgb(#[trigger] a[i], b[i]),
    ensures
        spec_dist_sum(a, block, n) == spec_dist_sum(b, block, n),
        spec_dist_max(a, block, n) == spec_dist_max(b, block, n),
    decreases n,
{
    if n > 0 {
        lemma_same_rgb_tables(a, b, block, n - 1);
        assert(spec_same_rgb(a[0], b[0]) && spec_same_rgb(a[1], b[1]) && spec_same_rgb(a[2], b[2])
            && spec_same_rgb(a[3], b[3]));
    }
}

/// A block of one color has a single candidate, at every quality: its
/// quantized color as both endpoints. Each pixel takes index 0, and the
/// score is 32 times the distance from the color to its quantized self.
pub proof fn lemma_flat_block(block: Block, quality: u8)
    requires
        spec_is_flat(block),
    ensures
        ({
            let q = spec_quantize(block[0]);
            &&& spec_build_endpoints(block, quality) == seq![EndpointPair { low: q, high: q }]
            &&& spec_selected(block, quality) == EndpointPair { low: q, high: q }
            &&& spec_encode_pixels(spec_build_table(spec_selected(block, quality)), block) == 0
            &&& spec_encode_block(block, quality).1 == (16 + OUTLIER_WEIGHT) * spec_pixel_dist(
                q,
                block[0],
            )
        }),
{
    reveal(spec_encode_block);
    let q = spec_quantize(block[0]);
    let ends = EndpointPair { low: q, high: q };
    let table = spec_build_table(ends);
    lemma_flat_minmax(block);
    assert(spec_build_endpoints(block, quality) =~= seq![ends]);
    lemma_table_entries(ends);
    assert(table[0] == q && table[1] == q && table[2] == q && table[3] == q);
    lemma_flat_dist(table, block, 16);
    lemma_flat_stream(table, block, 0);
}

proof fn lemma_flat_dist(table: Table, block: Block, n: int)
    requires
        0 <= n <= 16,
        spec_is_flat(block),
        table[1] == table[0] && table[2] == table[0] && table[3] == table[0],
    ensures
        spec_dist_sum(table, block, n) == n * spec_pixel_dist(table[0], block[0]),
        spec_dist_max(table, block, n) == if n > 0 {
            spec_pixel_dist(table[0], block[0])
        } else {
            0
        },
    decreases n,
{
    let d = spec_pixel_dist(table[0], block[0]);
    lemma_pixel_dist_bounds(table[0], block[0]);
    if n > 0 {
        lemma_flat_dist(table, block, n - 1);
        assert(block[n - 1] == block[0]);
        assert((n - 1) * d + d == n * d) by (nonlinear_arith);
    }
}

proof fn lemma_flat_stream(table: Table, block: Block, k: int)
    requires
        0 <= k <= 16,
        spec_is_flat(block),
        table[1] == table[0] && table[2] == table[0] && table[3] == table[0],
    ensures
        spec_index_stream(table, block, k) == 0,
    decreases 16 - k,
{
    if k < 16 {
        lemma_flat_stream(table, block, k + 1);
        assert(block[k] == block[0]);
    }
}

/// A block of one color that is representable in 5:6:5 is encoded without
/// distortion, at every quality.
pub proof fn lemma_flat_block_exact(block: Block, quality: u8)
    requires
        spec_is_flat(block),
        spec_is_565(block[0]),
    ensures
        spec_encode_block(block, quality).1 == 0,
{
    lemma_flat_block(block, quality);
    lemma_quantize_precision(block[0]);
    lemma_pixel_dist_bounds(spec_quantize(block[0]), block[0]);
}

/// The packed value of a block fits in 64 bits and its score is between 0
/// and [`MAX_BLOCK_DIST`].
pub proof fn lemma_encode_block_bounds(block: Block, quality: u8)
    ensures
        0 <= spec_encode_block(block, quality).0 < 0x1_0000_0000_0000_0000,
        0 <= spec_encode_block(block, quality).1 <= MAX_BLOCK_DIST,
{
    reveal(spec_encode_block);
    lemma_packed_round_trip(block, quality);
    lemma_block_dist_bounds(spec_build_table(spec_selected(block, quality)), block);
}

/// Every quality above 2 encodes a block as quality 2 does.
pub proof fn lemma_block_quality_saturates(block: Block, quality: u8)
    requires
        quality >= 2,
    ensures
        spec_encode_block(block, quality) == spec_encode_block(block, 2),
{
    reveal(spec_encode_block);
    lemma_build_endpoints(block, quality, 0, 1);
}

fn candidate_dist(cands: &Vec<EndpointPair>, pixels: &Block, k: usize) -> (dist: u32)
    requires
        k < cands.len(),
    ensures
        dist == spec_candidate_dist(cands@, *pixels, k as int),
{
    proof {
        reveal(spec_candidate_dist);
    }
    block_dist(&build_table(&cands[k]), pixels)
}

fn select_best(cands: &Vec<EndpointPair>, pixels: &Block) -> (found: (usize, u32))
    requires
        cands.len() >= 1,
    ensures
        found.0 == spec_best(cands@, *pixels, cands.len() as int),
        found.0 < cands.len(),
        found.1 == spec_candidate_dist(cands@, *pixels, found.0 as int),
{
    let mut best: usize = 0;
    let mut best_dist: u32 = candidate_dist(cands, pixels, 0);
    let mut k: usize = 1;
    while k < cands.len()
        invariant
            1 <= k <= cands.len(),
            best < k,
            best == spec_best(cands@, *pixels, k as int),
            best_dist == spec_candidate_dist(cands@, *pixels, best as int),
        decreases cands.len() - k,
    {
        let dist = candidate_dist(cands, pixels, k);
        if dist < best_dist {
            best = k;
            best_dist = dist;
        }
        k += 1;
    }
    (best, best_dist)
}

/// Encodes one block: returns its packed 64-bit value and its distortion
/// score.
pub fn encode_block(pixels: &Block, quality: u8) -> (out: (u64, u32))
    ensures
        out.0 == spec_encode_block(*pixels, quality).0,
        out.1 == spec_encode_block(*pixels, quality).1,
        out.1 <= spec_block_dist(
            spec_build_table(spec_quantize_endpoints(spec_minmax(*pixels))),
            *pixels,
        ),
        out.1 <= MAX_BLOCK_DIST,
{
    let cands = build_endpoints(pixels, quality);
    let (best, best_dist) = select_best(&cands, pixels);
    let ends = cands[best];
    let table = build_table(&ends);
    let low: u64 = encode_endpoint(&ends.low) as u64;
    let high: u64 = encode_endpoint(&ends.high) as u64;
    let encoded: u64 = encode_pixels(&table, pixels) as u64;
    let packed = (encoded << 32) | (low << 16) | high;
    assert(packed == encoded * 0x1_0000_0000 + low * 0x1_0000 + high) by (bit_vector)
        requires
            packed == (encoded << 32) | (low << 16) | high,
            encoded < 0x1_0000_0000,
            low < 0x1_0000,
            high < 0x1_0000,
    ;
    proof {
        reveal(spec_encode_block);
        reveal(spec_candidate_dist);
    }
    assert(ends == spec_selected(*pixels, quality));
    assert(best_dist <= spec_block_dist(
        spec_build_table(spec_quantize_endpoints(spec_minmax(*pixels))),
        *pixels,
    ) && best_dist <= MAX_BLOCK_DIST) by {
        lemma_selected_is_best(*pixels, quality);
        lemma_block_dist_bounds(table, *pixels);
    }
    (packed, best_dist)
}

} // verus!
