use ltc_lab::rate::{parse_rate, parse_rate_option, Ratio, RateSpec, PRESETS};

fn fps_of(r: &RateSpec) -> f64 {
    r.real.num as f64 / r.real.den as f64
}

#[test]
fn presets_parse() {
    for p in PRESETS {
        assert!(parse_rate(p, false).is_ok(), "{p} should parse");
    }
}

#[test]
fn df_inferred_from_semicolon_on_30() {
    let r = parse_rate("30", true).unwrap();
    assert!(r.drop && r.nominal == 30);
    assert!((fps_of(&r) - 30_000.0 / 1001.0).abs() < 1e-6);
}

#[test]
fn df_rejected_on_nondrop_rate() {
    assert!(parse_rate("25", true).is_err());
    assert!(parse_rate("24", true).is_err());
}

#[test]
fn nondrop_2997_allowed() {
    let r = parse_rate("29.97", false).unwrap();
    assert!(!r.drop && r.nominal == 30);
}

#[test]
fn label_shows_fractional() {
    assert_eq!(parse_rate("30", false).unwrap().label(), "30");
    assert_eq!(parse_rate("29.97", true).unwrap().label(), "29.97");
}

#[test]
fn every_name_gives_its_rate() {
    let rate = |nominal, num, den, drop| RateSpec { nominal, real: Ratio { num, den }, drop };
    assert_eq!(parse_rate("24", false), Ok(rate(24, 24, 1, false)));
    assert_eq!(parse_rate("25", false), Ok(rate(25, 25, 1, false)));
    assert_eq!(parse_rate("30", false), Ok(rate(30, 30, 1, false)));
    assert_eq!(parse_rate("30", true), Ok(rate(30, 30_000, 1001, true)));
    assert_eq!(parse_rate("29.97", true), Ok(rate(30, 30_000, 1001, true)));
    assert_eq!(parse_rate("29.97df", false), Ok(rate(30, 30_000, 1001, false)));
    assert_eq!(parse_rate("23.976", false), Ok(rate(24, 24_000, 1001, false)));
    assert_eq!(parse_rate("23.98", false), Ok(rate(24, 24_000, 1001, false)));
}

#[test]
fn rate_errors_say_what_is_wrong() {
    assert_eq!(
        parse_rate("60", false),
        Err("unsupported fps \"60\" (try 24, 25, 30, 29.97, 23.976)".to_string())
    );
    assert_eq!(
        parse_rate_option("--fps", "a\"b\n", true),
        Err("unsupported --fps \"a\\\"b\\n\" (try 24, 25, 30, 29.97, 23.976)".to_string())
    );
    assert_eq!(
        parse_rate("23.976", true),
        Err("drop-frame (';') is only defined for 29.97, not 23.976 fps".to_string())
    );
}

#[test]
fn labels_have_two_decimals() {
    let label = |nominal, num, den| RateSpec { nominal, real: Ratio { num, den }, drop: false }.label();
    assert_eq!(label(24, 24_000, 1001), "23.98");
    assert_eq!(label(25, 25, 1), "25");
    assert_eq!(label(15, 25, 2), "12.50");
    assert_eq!(label(1, 1, 3), "0.33");
    assert_eq!(label(1, 2, 3), "0.67");
    assert_eq!(label(60, 60_000, 1001), "59.94");
    // Nearer to a whole number than a millionth.
    assert_eq!(label(30, 29_999_999, 1_000_000), format!("{:.2}", 29.999999));
    assert_eq!(label(30, 299_999_999, 10_000_000), "30");
}
