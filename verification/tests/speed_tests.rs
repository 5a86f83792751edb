use bench_config::speed::Speed;

#[test]
fn test_speed_from_str() {
    assert!(Speed::from_str("").is_err());
    assert!(Speed::from_str("alskjaslkdfjhasjdhfb").is_err());
    assert!(Speed::from_str("Bps").is_err());
    assert_eq!(Ok(Speed::Bps(1 << 10)), Speed::from_str("1024"));
    assert_eq!(Ok(Speed::Bps(1 << 10)), Speed::from_str("1024Bps"));
    assert_eq!(Ok(Speed::Bps(1 << 20)), Speed::from_str("1024KBps"));
    assert_eq!(Ok(Speed::Bps(1 << 30)), Speed::from_str("1024MBps"));
    assert_eq!(Ok(Speed::Bps(1 << 40)), Speed::from_str("1024GBps"));
}

#[test]
fn parse_pass_through_exact_spelling_only() {
    assert_eq!(Ok(Speed::PassThrough), Speed::from_str("pass_through"));
    assert!(Speed::from_str("Pass_Through").is_err());
    assert!(Speed::from_str("PASS_THROUGH").is_err());
    assert!(Speed::from_str("passthrough").is_err());
    assert!(Speed::from_str(" pass_through").is_err());
    assert!(Speed::from_str("pass_through ").is_err());
    assert!(Speed::from_str("PassThrough").is_err());
}

#[test]
fn parse_scaled_values() {
    assert_eq!(Ok(Speed::Bps(1_048_576)), Speed::from_str("1024KBps"));
    assert_eq!(Ok(Speed::Bps(1_073_741_824)), Speed::from_str("1024MBps"));
    assert_eq!(Ok(Speed::Bps(1_099_511_627_776)), Speed::from_str("1024GBps"));
    assert_eq!(Ok(Speed::Bps(2048)), Speed::from_str("2KBps"));
    assert_eq!(Ok(Speed::Bps(0)), Speed::from_str("0GBps"));
}

#[test]
fn parse_plain_numeral() {
    assert_eq!(Ok(Speed::Bps(0)), Speed::from_str("0"));
    assert_eq!(Ok(Speed::Bps(1024)), Speed::from_str("+1024"));
    assert_eq!(Ok(Speed::Bps(usize::MAX)), Speed::from_str("18446744073709551615"));
}

#[test]
fn parse_error_messages() {
    assert_eq!(
        Err("cannot parse integer from empty string".to_string()),
        Speed::from_str("")
    );
    assert_eq!(Err("Invalid speed".to_string()), Speed::from_str("Bps"));
    assert_eq!(
        Err("invalid digit found in string".to_string()),
        Speed::from_str("12x4Bps")
    );
    assert_eq!(
        Err("invalid digit found in string".to_string()),
        Speed::from_str("-5")
    );
    assert_eq!(
        Err("number too large to fit in target type".to_string()),
        Speed::from_str("18446744073709551616")
    );
    assert_eq!(
        Err("overflow".to_string()),
        Speed::from_str("18446744073709551615GBps")
    );
    assert_eq!(Err("overflow".to_string()), Speed::from_str("18014398509481984KBps"));
}

#[test]
fn parse_suffix_without_scale_letter() {
    // The character before `Bps` is a digit, so no scale applies.
    assert_eq!(Ok(Speed::Bps(7)), Speed::from_str("7Bps"));
    // A lone scale letter leaves no digits at all.
    assert!(Speed::from_str("KBps").is_err());
    assert!(Speed::from_str("GBps").is_err());
}

#[test]
fn format_plain_and_exact_multiples() {
    assert_eq!("PassThrough", Speed::PassThrough.format());
    assert_eq!("0Bps", Speed::Bps(0).format());
    assert_eq!("1023Bps", Speed::Bps(1023).format());
    assert_eq!("1KBps", Speed::Bps(1024).format());
    assert_eq!("1MBps", Speed::Bps(1_048_576).format());
    assert_eq!("1GBps", Speed::Bps(1_073_741_824).format());
    assert_eq!("1024GBps", Speed::Bps(1 << 40).format());
}

#[test]
fn format_fractional_quotients() {
    assert_eq!("1.5KBps", Speed::Bps(1536).format());
    assert_eq!("1.46484375KBps", Speed::Bps(1500).format());
    assert_eq!("1023.9990234375KBps", Speed::Bps(1_048_575).format());
    assert_eq!("1.5GBps", Speed::Bps(1_610_612_736).format());
}

#[test]
fn round_trip_is_not_guaranteed() {
    // The formatter prints a fractional quotient that the parser rejects:
    // the asymmetry is by design.
    let x = Speed::Bps(1500);
    let text = x.format();
    assert_eq!("1.46484375KBps", text);
    assert!(Speed::from_str(&text).is_err());
}
