use bc1::endpoints::{EXTRAPOLATION_DEN, EXTRAPOLATION_NUM};
use bc1::{
    encode_endpoint, extrapolate_endpoints, quantize, quantize_endpoints,
    sort_quantize_endpoints, Color, EndpointPair,
};

fn rgba(r: u8, g: u8, b: u8, a: u8) -> Color {
    Color { r, g, b, a }
}

fn pair(low: Color, high: Color) -> EndpointPair {
    EndpointPair { low, high }
}

#[test]
fn quantize_endpoints_quantizes_both_in_order() {
    let out = quantize_endpoints(&pair(rgba(255, 255, 255, 255), rgba(7, 3, 7, 1)));
    assert_eq!(out, pair(rgba(248, 252, 248, 128), rgba(0, 0, 0, 0)));
}

#[test]
fn extrapolation_factor_is_three_halves() {
    assert_eq!(EXTRAPOLATION_NUM, 3);
    assert_eq!(EXTRAPOLATION_DEN, 2);
}

#[test]
fn extrapolate_moves_each_channel_away_from_the_other_endpoint() {
    let out = extrapolate_endpoints(&pair(rgba(1, 100, 200, 7), rgba(3, 50, 250, 9)));
    assert_eq!(out, pair(rgba(0, 125, 175, 7), rgba(4, 25, 255, 9)));
}

#[test]
fn extrapolate_leaves_white_and_black_in_place() {
    let white = rgba(255, 255, 255, 255);
    let black = rgba(0, 0, 0, 255);
    assert_eq!(extrapolate_endpoints(&pair(white, black)), pair(white, black));
    assert_eq!(extrapolate_endpoints(&pair(black, white)), pair(black, white));
}

#[test]
fn extrapolate_drops_the_half() {
    // 13 + 3/2 * (10 - 13) = 8.5 and 10 + 3/2 * (13 - 10) = 14.5
    let out = extrapolate_endpoints(&pair(rgba(10, 10, 10, 0), rgba(13, 13, 13, 0)));
    assert_eq!(out, pair(rgba(8, 8, 8, 0), rgba(14, 14, 14, 0)));
}

#[test]
fn extrapolate_clamps_and_never_wraps() {
    let out = extrapolate_endpoints(&pair(rgba(0, 255, 10, 1), rgba(255, 0, 250, 2)));
    assert_eq!(out, pair(rgba(0, 255, 0, 1), rgba(255, 0, 255, 2)));
    let edge = extrapolate_endpoints(&pair(rgba(3, 0, 85, 0), rgba(1, 255, 255, 0)));
    assert_eq!(edge, pair(rgba(4, 0, 0, 0), rgba(0, 255, 255, 0)));
}

#[test]
fn extrapolate_keeps_equal_colors_and_alpha() {
    let out = extrapolate_endpoints(&pair(rgba(10, 20, 30, 1), rgba(10, 20, 30, 2)));
    assert_eq!(out, pair(rgba(10, 20, 30, 1), rgba(10, 20, 30, 2)));
}

#[test]
fn extrapolate_encloses_the_pair_on_every_channel_value() {
    for x in 0..=255u8 {
        for y in x..=255u8 {
            let out = extrapolate_endpoints(&pair(rgba(x, x, x, 0), rgba(y, y, y, 0)));
            assert!(out.low.r <= x && out.high.r >= y);
            let down = 3 * (x as i32) - (y as i32);
            let up = 3 * (y as i32) - (x as i32);
            let want_low = if down <= 0 { 0 } else { down / 2 };
            let want_high = if up >= 510 { 255 } else { up / 2 };
            assert_eq!(out.low.r as i32, want_low);
            assert_eq!(out.low.g as i32, want_low);
            assert_eq!(out.low.b as i32, want_low);
            assert_eq!(out.high.r as i32, want_high);
            assert_eq!(out.high.g as i32, want_high);
            assert_eq!(out.high.b as i32, want_high);
            let back = extrapolate_endpoints(&pair(rgba(y, y, y, 0), rgba(x, x, x, 0)));
            assert_eq!(back.low, out.high);
            assert_eq!(back.high, out.low);
        }
    }
}

#[test]
fn sort_orders_by_endpoint_number_then_quantizes() {
    let a = rgba(200, 10, 10, 255);
    let b = rgba(10, 200, 10, 0);
    let want = pair(rgba(8, 200, 8, 0), rgba(200, 8, 8, 128));
    assert_eq!(sort_quantize_endpoints(&pair(a, b)), want);
    assert_eq!(sort_quantize_endpoints(&pair(b, a)), want);
    assert!(encode_endpoint(&want.low) <= encode_endpoint(&want.high));
}

#[test]
fn sort_keeps_the_order_of_equal_endpoint_numbers() {
    let a = rgba(9, 5, 9, 255);
    let b = rgba(15, 7, 15, 0);
    assert_eq!(encode_endpoint(&a), encode_endpoint(&b));
    assert_eq!(sort_quantize_endpoints(&pair(a, b)), pair(quantize(&a), quantize(&b)));
    assert_eq!(sort_quantize_endpoints(&pair(b, a)), pair(quantize(&b), quantize(&a)));
}

/// The same formula evaluated in single precision on channels scaled to
/// the range from 0 to 1.
fn in_single_precision(x: u8, y: u8) -> u8 {
    let fx = x as f32 / 255.0;
    let fy = y as f32 / 255.0;
    let moved = fy + (fx - fy) * 1.5;
    let kept = if moved > 1.0 {
        1.0
    } else if moved < 0.0 {
        0.0
    } else {
        moved
    };
    (kept * 255.0) as u8
}

#[test]
fn extrapolate_is_exact_where_single_precision_falls_short() {
    let mut short = 0u32;
    for x in 0..=255u8 {
        for y in 0..=255u8 {
            let out = extrapolate_endpoints(&pair(rgba(x, x, x, 0), rgba(y, y, y, 0)));
            let low = in_single_precision(x, y);
            let high = in_single_precision(y, x);
            assert!(out.low.r == low || out.low.r == low + 1);
            assert!(out.high.r == high || out.high.r == high + 1);
            if out.low.r != low {
                // rounding error can only lose an exact whole number
                assert_eq!((3 * (x as i32) - (y as i32)) % 2, 0);
                short += 1;
            }
        }
    }
    assert!(short > 0);
    // 1 + 3/2 * (3 - 1) is 4 exactly
    assert_eq!(extrapolate_endpoints(&pair(rgba(3, 3, 3, 0), rgba(1, 1, 1, 0))).low.r, 4);
    assert_eq!(in_single_precision(3, 1), 3);
}
