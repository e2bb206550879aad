use comdex_collateral_oracle::decimal::{normalize_fixed_point, parse_band_rate, Decimal};
use std::str::FromStr;

fn atomics_of(text: &str) -> u128 {
    cosmwasm_std::Decimal::from_str(text).unwrap().atomics().u128()
}

#[test]
fn test_parse_band_rate() {
    let rate_dec_1: Decimal = parse_band_rate(3493968700000000000000u128).unwrap();
    assert_eq!(rate_dec_1.atomics, atomics_of("3493.968700000000000000"));

    let rate_dec_2: Decimal = parse_band_rate(1234u128).unwrap();
    assert_eq!(rate_dec_2.atomics, atomics_of("0.000000000000001234"));

    let rate_dec_3: Decimal = parse_band_rate(100000000000000001u128).unwrap();
    assert_eq!(rate_dec_3.atomics, atomics_of("0.100000000000000001"));
}

#[test]
fn normalize_concrete_cases() {
    assert_eq!(normalize_fixed_point(3493968700000000000000, 18), "3493.968700000000000000");
    assert_eq!(normalize_fixed_point(1234, 18), "0.000000000000001234");
    assert_eq!(normalize_fixed_point(100000000000000001, 18), "0.100000000000000001");
    assert_eq!(normalize_fixed_point(0, 18), "0.000000000000000000");
}

#[test]
fn normalize_digit_count_equal_to_scale() {
    assert_eq!(normalize_fixed_point(123456, 6), "0.123456");
    assert_eq!(normalize_fixed_point(1234567, 6), "1.234567");
    assert_eq!(normalize_fixed_point(5, 1), "0.5");
    assert_eq!(normalize_fixed_point(42, 3), "0.042");
}

#[test]
fn normalize_largest_value() {
    assert_eq!(
        normalize_fixed_point(u128::MAX, 18),
        "340282366920938463463.374607431768211455"
    );
    assert_eq!(parse_band_rate(u128::MAX).unwrap().atomics, u128::MAX);
}

#[test]
fn normalize_round_trip_values() {
    for raw in [0u128, 1, 9, 10, 99, 1000, 123456789, 10u128.pow(18), 10u128.pow(30) + 7] {
        for d in [0u32, 1, 2, 5, 18, 25] {
            let text = normalize_fixed_point(raw, d);
            let (whole, frac) = text.split_once('.').unwrap();
            assert_eq!(frac.len(), d as usize);
            let back = whole.parse::<u128>().unwrap() * 10u128.pow(d)
                + if frac.is_empty() { 0 } else { frac.parse::<u128>().unwrap() };
            assert_eq!(back, raw);
        }
    }
}

#[test]
fn parse_band_rate_zero_and_one() {
    assert_eq!(parse_band_rate(0).unwrap(), Decimal { atomics: 0 });
    assert_eq!(parse_band_rate(1).unwrap(), Decimal { atomics: 1 });
    assert_eq!(parse_band_rate(10u128.pow(18)).unwrap().atomics, atomics_of("1"));
}
