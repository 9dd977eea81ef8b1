use bc1::table::{MAX_BLOCK_DIST, OUTLIER_WEIGHT};
use bc1::{
    block_dist, build_entry, build_table, encode_pixels, nearest_entry, pixel_dist, Block, Color,
    EndpointPair,
};

fn rgba(r: u8, g: u8, b: u8, a: u8) -> Color {
    Color { r, g, b, a }
}

fn gradient() -> Block {
    let mut block = [rgba(0, 0, 0, 0); 16];
    for k in 0..16usize {
        block[k] = rgba((16 * k) as u8, (255 - 16 * k) as u8, ((k * 37) % 256) as u8, 255);
    }
    block
}

#[test]
fn table_holds_high_then_low_then_the_two_blends() {
    let ends = EndpointPair { low: rgba(0, 0, 0, 0), high: rgba(248, 252, 248, 128) };
    let table = build_table(&ends);
    assert_eq!(table[0], ends.high);
    assert_eq!(table[1], ends.low);
    assert_eq!(table[2], rgba(165, 168, 165, 85));
    assert_eq!(table[3], rgba(82, 84, 82, 42));
}

#[test]
fn table_blends_with_truncating_division() {
    let ends = EndpointPair { low: rgba(8, 4, 16, 0), high: rgba(240, 128, 24, 128) };
    assert_eq!(
        build_table(&ends),
        [rgba(240, 128, 24, 128), rgba(8, 4, 16, 0), rgba(162, 86, 21, 85), rgba(85, 45, 18, 42)]
    );
}

#[test]
fn entry_matches_table_and_large_indices_count_as_three() {
    let ends = EndpointPair { low: rgba(8, 4, 16, 0), high: rgba(240, 128, 24, 128) };
    let table = build_table(&ends);
    for i in 0..4usize {
        assert_eq!(build_entry(&ends, i), table[i]);
    }
    assert_eq!(build_entry(&ends, 4), table[3]);
    assert_eq!(build_entry(&ends, usize::MAX), table[3]);
}

#[test]
fn table_of_equal_endpoints_is_one_color() {
    let c = rgba(120, 44, 64, 128);
    assert_eq!(build_table(&EndpointPair { low: c, high: c }), [c, c, c, c]);
}

#[test]
fn nearest_entry_takes_the_lowest_index_among_ties() {
    let c = rgba(8, 8, 8, 0);
    let far = rgba(200, 200, 200, 0);
    assert_eq!(nearest_entry(&[c, c, c, c], &rgba(9, 8, 8, 0)), (0, 1));
    assert_eq!(nearest_entry(&[far, c, c, far], &rgba(8, 8, 10, 0)), (1, 4));
    assert_eq!(nearest_entry(&[far, far, c, c], &c), (2, 0));
    assert_eq!(nearest_entry(&[far, far, far, c], &c), (3, 0));
    // equally far from entries 0 and 1
    assert_eq!(nearest_entry(&[rgba(0, 0, 0, 0), rgba(20, 0, 0, 0), far, far], &rgba(10, 0, 0, 0)), (0, 100));
}

#[test]
fn score_is_sum_plus_sixteen_times_the_worst_pixel() {
    let table = build_table(&EndpointPair { low: rgba(0, 0, 0, 0), high: rgba(248, 252, 248, 0) });
    let mut block = [rgba(0, 0, 0, 255); 16];
    block[3] = rgba(255, 255, 255, 255);
    block[7] = rgba(2, 0, 0, 255);
    // nearest distances: 107 for the white pixel, 4 for the dark red one
    assert_eq!(block_dist(&table, &block), 107 + 4 + 16 * 107);
    assert_eq!(OUTLIER_WEIGHT, 16);
}

#[test]
fn score_of_a_gradient_against_its_extremes() {
    let block = gradient();
    let table = build_table(&EndpointPair { low: rgba(0, 12, 0, 128), high: rgba(240, 252, 224, 128) });
    assert_eq!(block_dist(&table, &block), 875776);
    let mut sum = 0u32;
    let mut worst = 0u32;
    for p in block.iter() {
        let d = (0..4).map(|i| pixel_dist(&table[i], p)).min().unwrap();
        sum += d;
        worst = worst.max(d);
    }
    assert_eq!(block_dist(&table, &block), sum + 16 * worst);
}

#[test]
fn score_is_zero_when_every_pixel_is_in_the_table() {
    let ends = EndpointPair { low: rgba(0, 0, 0, 0), high: rgba(240, 120, 24, 0) };
    let table = build_table(&ends);
    let mut block = [table[0]; 16];
    for k in 0..16usize {
        block[k] = table[k % 4];
    }
    assert_eq!(block_dist(&table, &block), 0);
}

#[test]
fn score_reaches_its_maximum() {
    let black = rgba(0, 0, 0, 0);
    let table = [black, black, black, black];
    let block = [rgba(255, 255, 255, 0); 16];
    assert_eq!(block_dist(&table, &block), 6242400);
    assert_eq!(MAX_BLOCK_DIST, 6242400);
}

#[test]
fn indices_put_the_first_pixel_in_the_lowest_bits() {
    let ends = EndpointPair { low: rgba(0, 0, 0, 0), high: rgba(240, 120, 24, 0) };
    let table = build_table(&ends);
    let mut block = [table[0]; 16];
    block[0] = table[3];
    block[1] = table[2];
    block[2] = table[1];
    block[15] = table[1];
    assert_eq!(encode_pixels(&table, &block), 0b11 | (0b10 << 2) | (0b01 << 4) | (0b01 << 30));
}

#[test]
fn indices_of_every_pixel_can_be_read_back() {
    let block = gradient();
    let table = build_table(&EndpointPair { low: rgba(0, 12, 0, 128), high: rgba(240, 252, 224, 128) });
    let stream = encode_pixels(&table, &block);
    assert_eq!(stream, 0xfaafeabf);
    for k in 0..16usize {
        assert_eq!((stream >> (2 * k)) & 3, nearest_entry(&table, &block[k]).0);
    }
}
