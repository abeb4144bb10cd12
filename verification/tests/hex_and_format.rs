use keyscan::hexfmt::{dec_string_u128, hex_string_fixed, key_hex, parse_hex_u128};
use keyscan::report::{
    eta_tenths, format_duration, format_percent, format_progress_line, keys_per_second,
    percent_e5, should_report,
};

#[test]
fn key_hex_is_fixed_width_and_padded() {
    let h = key_hex(0x19);
    assert_eq!(h.len(), 64);
    assert!(h.ends_with("19"));
    assert!(h.starts_with("0"));
    assert_eq!(h, format!("{:064x}", 0x19u128));
}

#[test]
fn key_hex_matches_std_formatting_on_larger_scalars() {
    for v in [0u128, 1, 15, 16, 255, 0x1000000, u128::MAX] {
        assert_eq!(key_hex(v), format!("{:064x}", v));
    }
}

#[test]
fn hex_string_fixed_width_zero_is_empty() {
    assert_eq!(hex_string_fixed(0xab, 0), "");
    assert_eq!(hex_string_fixed(0xab, 2), "ab");
    assert_eq!(hex_string_fixed(0xab, 4), "00ab");
}

#[test]
fn decimal_rendering() {
    assert_eq!(dec_string_u128(0), "0");
    assert_eq!(dec_string_u128(7), "7");
    assert_eq!(dec_string_u128(1234567890), "1234567890");
    assert_eq!(dec_string_u128(u128::MAX), u128::MAX.to_string());
}

#[test]
fn parse_hex_accepts_both_cases() {
    assert_eq!(parse_hex_u128("1000000"), Some(0x1000000));
    assert_eq!(parse_hex_u128("1ffffff"), Some(0x1ffffff));
    assert_eq!(parse_hex_u128("DeadBeef"), Some(0xdeadbeef));
    assert_eq!(parse_hex_u128("0"), Some(0));
}

#[test]
fn parse_hex_rejects_bad_input() {
    assert_eq!(parse_hex_u128(""), None);
    assert_eq!(parse_hex_u128("xyz"), None);
    assert_eq!(parse_hex_u128("12g4"), None);
    assert_eq!(parse_hex_u128("0x12"), None);
}

#[test]
fn parse_hex_handles_the_width_limit() {
    let max = "f".repeat(32);
    assert_eq!(parse_hex_u128(&max), Some(u128::MAX));
    let padded = format!("00{}", max);
    assert_eq!(parse_hex_u128(&padded), Some(u128::MAX));
    let over = "1".to_string() + &"0".repeat(32);
    assert_eq!(parse_hex_u128(&over), None);
}

#[test]
fn duration_in_seconds_has_one_decimal() {
    assert_eq!(format_duration(450), "45.0 s");
    assert_eq!(format_duration(455), "45.5 s");
    assert_eq!(format_duration(599), "59.9 s");
}

#[test]
fn duration_switches_to_minutes() {
    // 1800 seconds renders in minutes
    assert_eq!(format_duration(18000), "30.0 min");
    assert_eq!(format_duration(20000), "33.3 min");
}

#[test]
fn duration_switches_to_hours() {
    // 20000 seconds renders in hours
    assert_eq!(format_duration(200000), "5.5 h");
}

#[test]
fn duration_unit_boundaries_do_not_flip() {
    assert_eq!(format_duration(600), "1.0 min");
    assert_eq!(format_duration(36000), "1.0 h");
    assert_eq!(format_duration(864000), "1.0 d");
    assert_eq!(format_duration(25920000), "1.0 mo");
    assert_eq!(format_duration(315360000), "1.0 y");
}

#[test]
fn percent_scaling_is_exact() {
    assert_eq!(percent_e5(1, 3), Some(3333333));
    assert_eq!(percent_e5(16, 32), Some(5000000));
    assert_eq!(percent_e5(u128::MAX, u128::MAX), None);
}

#[test]
fn throughput_and_eta() {
    assert_eq!(keys_per_second(5000, 2500), Some(2000));
    assert_eq!(keys_per_second(5000, 0), None);
    assert_eq!(eta_tenths(1000, 100), Some(100));
    assert_eq!(eta_tenths(1000, 0), Some(0));
}

#[test]
fn report_trigger_conditions() {
    assert!(should_report(2001, 0, 0, 1000));
    assert!(!should_report(2000, 0, 0, 1000));
    assert!(should_report(0, 11, 0, 1000));
    assert!(!should_report(0, 10, 0, 1000));
}

#[test]
fn progress_line_renders_all_fields() {
    assert_eq!(format_percent(5000000), "50.00000");
    let eta = format_duration(100);
    let line = format_progress_line(16, 32, 5000000, 2000, &eta);
    assert_eq!(line, "progress: 16/32 (50.00000%) | rate: 2000 keys/s | eta: 10.0 s");
}
