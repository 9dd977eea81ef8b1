use bc1::{
    block_dist, build_endpoints, build_table, encode_block, encode_endpoint, encode_pixels,
    minmax, quantize, quantize_endpoints, Block, Color, EndpointPair,
};

fn rgba(r: u8, g: u8, b: u8, a: u8) -> Color {
    Color { r, g, b, a }
}

fn gradient() -> Block {
    let mut block = [rgba(0, 0, 0, 0); 16];
    for k in 0..16usize {
        block[k] = rgba((16 * k) as u8, (255 - 16 * k) as u8, ((k * 37) % 256) as u8, 255);
    }
    block
}

fn noise(seed: usize) -> Block {
    let mut block = [rgba(0, 0, 0, 0); 16];
    for k in 0..16usize {
        let i = seed * 16 + k;
        block[k] = rgba(
            ((i * 73 + 11) % 256) as u8,
            ((i * 151 + 7) % 256) as u8,
            ((i * 29 + 200) % 256) as u8,
            ((i * 5) % 256) as u8,
        );
    }
    block
}

fn decode_565(code: u16) -> Color {
    rgba((((code >> 11) & 31) << 3) as u8, (((code >> 5) & 63) << 2) as u8, ((code & 31) << 3) as u8, 0)
}

/// What a BC1 decoder shows for a packed block: color 0 comes from the
/// lowest 16 bits, color 1 from the next 16.
fn decode(packed: u64) -> [Color; 16] {
    let c0 = decode_565((packed & 0xFFFF) as u16);
    let c1 = decode_565(((packed >> 16) & 0xFFFF) as u16);
    let mix = |a: u8, b: u8| ((2 * (a as u16) + (b as u16)) / 3) as u8;
    let table = [
        c0,
        c1,
        rgba(mix(c0.r, c1.r), mix(c0.g, c1.g), mix(c0.b, c1.b), 0),
        rgba(mix(c1.r, c0.r), mix(c1.g, c0.g), mix(c1.b, c0.b), 0),
    ];
    let mut out = [c0; 16];
    for k in 0..16usize {
        out[k] = table[((packed >> (32 + 2 * k)) & 3) as usize];
    }
    out
}

#[test]
fn lone_white_pixel_keeps_the_high_endpoint() {
    let black = rgba(0, 0, 0, 255);
    let white = rgba(255, 255, 255, 255);
    for at in [0usize, 5, 15] {
        let mut block = [black; 16];
        block[at] = white;
        let (packed, dist) = encode_block(&block, 2);
        let low = ((packed >> 16) & 0xFFFF) as u16;
        let high = (packed & 0xFFFF) as u16;
        assert_eq!(low, 0x0000);
        assert_eq!(high, 0xFFFF);
        let ends = EndpointPair { low: decode_565(low), high: decode_565(high) };
        let table = build_table(&ends);
        assert_eq!(table[0], ends.high);
        for k in 0..16usize {
            let index = ((packed >> (32 + 2 * k)) & 3) as usize;
            if k == at {
                // the white pixel sits on the entry of the high endpoint
                assert_eq!(index, 0);
                assert_eq!(table[index], rgba(248, 252, 248, 0));
            } else {
                assert_eq!(index, 1);
                assert_eq!(table[index], rgba(0, 0, 0, 0));
            }
        }
        // the white pixel is 7, 3 and 7 away from (248, 252, 248); the
        // black pixels are exact
        let worst = 7 * 7 + 3 * 3 + 7 * 7;
        assert_eq!(dist, worst + 16 * worst);
        assert_eq!(dist, 1819);
    }
}

#[test]
fn lone_white_pixel_packs_as_expected() {
    let mut block = [rgba(0, 0, 0, 255); 16];
    block[0] = rgba(255, 255, 255, 255);
    assert_eq!(encode_block(&block, 2), (0x5555_5554_0000_ffff, 1819));
    block[0] = rgba(0, 0, 0, 255);
    block[15] = rgba(255, 255, 255, 255);
    assert_eq!(encode_block(&block, 0), (0x1555_5555_0000_ffff, 1819));
}

#[test]
fn gradient_block_at_each_quality() {
    let block = gradient();
    assert_eq!(encode_block(&block, 0), (0xfaaf_eabf_0060_f7fc, 875776));
    assert_eq!(encode_block(&block, 1), (0x000a_af55_26e9_a2ee, 424034));
    assert_eq!(encode_block(&block, 2), (0x00aa_bfd5_07ed_d92e, 335267));
    assert_eq!(encode_block(&block, 3), encode_block(&block, 2));
    assert_eq!(encode_block(&block, 255), encode_block(&block, 2));
}

#[test]
fn selected_candidate_is_the_first_of_the_best() {
    for seed in 0..6usize {
        let block = if seed == 0 { gradient() } else { noise(seed) };
        for quality in 0..3u8 {
            let cands = build_endpoints(&block, quality);
            let mut best = 0usize;
            let mut best_dist = block_dist(&build_table(&cands[0]), &block);
            for (k, c) in cands.iter().enumerate() {
                let d = block_dist(&build_table(c), &block);
                if d < best_dist {
                    best = k;
                    best_dist = d;
                }
            }
            let ends = cands[best];
            let table = build_table(&ends);
            let want = ((encode_pixels(&table, &block) as u64) << 32)
                | ((encode_endpoint(&ends.low) as u64) << 16)
                | (encode_endpoint(&ends.high) as u64);
            assert_eq!(encode_block(&block, quality), (want, best_dist));
        }
    }
}

#[test]
fn score_never_exceeds_that_of_the_extremes() {
    for seed in 0..8usize {
        let block = noise(seed);
        let baseline = block_dist(&build_table(&quantize_endpoints(&minmax(&block))), &block);
        let (_, d0) = encode_block(&block, 0);
        let (_, d1) = encode_block(&block, 1);
        let (_, d2) = encode_block(&block, 2);
        assert_eq!(d0, baseline);
        assert!(d1 <= baseline);
        assert!(d2 <= d1);
    }
}

#[test]
fn flat_block_of_a_representable_color_has_no_distortion() {
    let c = rgba(248, 128, 8, 77);
    for quality in 0..4u8 {
        let (packed, dist) = encode_block(&[c; 16], quality);
        assert_eq!(dist, 0);
        let code = encode_endpoint(&c) as u64;
        assert_eq!(packed, (code << 16) | code);
    }
}

#[test]
fn flat_block_of_another_color_is_off_by_its_quantization() {
    let c = rgba(255, 0, 0, 255);
    let (packed, dist) = encode_block(&[c; 16], 2);
    assert_eq!(packed, 0x0000_0000_f800_f800);
    assert_eq!(dist, 16 * 49 + 16 * 49);
    assert_eq!(quantize(&c), rgba(248, 0, 0, 128));
}

#[test]
fn decoded_block_shows_the_selected_table() {
    for seed in 0..6usize {
        let block = noise(seed);
        for quality in 0..3u8 {
            let (packed, dist) = encode_block(&block, quality);
            let low = decode_565(((packed >> 16) & 0xFFFF) as u16);
            let high = decode_565((packed & 0xFFFF) as u16);
            assert_eq!(quantize(&low), low);
            assert_eq!(quantize(&high), high);
            let shown = decode(packed);
            let mut sum = 0u32;
            let mut worst = 0u32;
            for k in 0..16usize {
                let d = bc1::pixel_dist(&shown[k], &block[k]);
                sum += d;
                worst = worst.max(d);
            }
            assert_eq!(sum + 16 * worst, dist);
        }
    }
}
