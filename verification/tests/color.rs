use bc1::color::MAX_PIXEL_DIST;
use bc1::{encode_endpoint, pixel_dist, quantize, Color};

fn rgba(r: u8, g: u8, b: u8, a: u8) -> Color {
    Color { r, g, b, a }
}

#[test]
fn distance_sums_squared_channel_differences() {
    assert_eq!(pixel_dist(&rgba(10, 20, 30, 0), &rgba(13, 16, 30, 0)), 9 + 16);
    assert_eq!(pixel_dist(&rgba(0, 0, 0, 0), &rgba(1, 2, 3, 0)), 1 + 4 + 9);
    assert_eq!(pixel_dist(&rgba(200, 100, 50, 0), &rgba(100, 200, 150, 0)), 30000);
}

#[test]
fn distance_ignores_alpha() {
    assert_eq!(pixel_dist(&rgba(1, 2, 3, 0), &rgba(1, 2, 3, 255)), 0);
    assert_eq!(pixel_dist(&rgba(9, 2, 3, 17), &rgba(1, 2, 3, 200)), 64);
}

#[test]
fn distance_is_symmetric_and_zero_on_equal_colors() {
    let a = rgba(12, 250, 7, 1);
    let b = rgba(240, 3, 99, 2);
    assert_eq!(pixel_dist(&a, &b), pixel_dist(&b, &a));
    assert_eq!(pixel_dist(&a, &b), 228 * 228 + 247 * 247 + 92 * 92);
    assert_eq!(pixel_dist(&a, &a), 0);
}

#[test]
fn distance_reaches_its_maximum_between_black_and_white() {
    let d = pixel_dist(&rgba(0, 0, 0, 0), &rgba(255, 255, 255, 0));
    assert_eq!(d, 195075);
    assert_eq!(d, MAX_PIXEL_DIST);
}

#[test]
fn quantize_masks_each_channel() {
    assert_eq!(quantize(&rgba(255, 255, 255, 255)), rgba(248, 252, 248, 128));
    assert_eq!(quantize(&rgba(7, 3, 7, 127)), rgba(0, 0, 0, 0));
    assert_eq!(quantize(&rgba(8, 4, 8, 128)), rgba(8, 4, 8, 128));
    assert_eq!(quantize(&rgba(123, 45, 67, 89)), rgba(120, 44, 64, 0));
}

#[test]
fn quantize_is_idempotent_on_every_channel_value() {
    for v in 0..=255u8 {
        let c = rgba(v, v, v, v);
        let once = quantize(&c);
        assert_eq!(quantize(&once), once);
        assert!(once.r <= v && v - once.r < 8);
        assert!(once.g <= v && v - once.g < 4);
        assert!(once.b <= v && v - once.b < 8);
        assert_eq!(once.r % 8, 0);
        assert_eq!(once.g % 4, 0);
        assert_eq!(once.b % 8, 0);
        assert_eq!(once.a % 128, 0);
    }
}

#[test]
fn endpoint_number_packs_five_six_five_bits() {
    assert_eq!(encode_endpoint(&rgba(255, 255, 255, 255)), 0xFFFF);
    assert_eq!(encode_endpoint(&rgba(255, 0, 0, 0)), 0xF800);
    assert_eq!(encode_endpoint(&rgba(0, 255, 0, 0)), 0x07E0);
    assert_eq!(encode_endpoint(&rgba(0, 0, 255, 0)), 0x001F);
    assert_eq!(encode_endpoint(&rgba(0, 0, 0, 255)), 0);
    assert_eq!(encode_endpoint(&rgba(8, 4, 8, 0)), (1 << 11) | (1 << 5) | 1);
    assert_eq!(encode_endpoint(&rgba(123, 45, 67, 89)), (15 << 11) | (11 << 5) | 8);
}

#[test]
fn endpoint_number_is_unchanged_by_quantizing() {
    for v in 0..=255u8 {
        let c = rgba(v, 255 - v, v / 2, v);
        assert_eq!(encode_endpoint(&quantize(&c)), encode_endpoint(&c));
    }
}

#[test]
fn endpoint_number_decodes_to_the_quantized_color() {
    for v in 0..=255u8 {
        let c = rgba(v, 255 - v, v.wrapping_mul(7), 0);
        let code = encode_endpoint(&c);
        let back = rgba(
            (((code >> 11) & 31) << 3) as u8,
            (((code >> 5) & 63) << 2) as u8,
            ((code & 31) << 3) as u8,
            0,
        );
        let q = quantize(&c);
        assert_eq!((back.r, back.g, back.b), (q.r, q.g, q.b));
    }
}
