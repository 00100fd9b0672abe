use rustacme::config::{
    account_email, contact_uri, first_invalid_domain, parse_i64, parse_u64, setting_i64,
    setting_u64, ConfigError, DEFAULT_CHECK_INTERVAL_SECS, DEFAULT_DNS_WAIT_SECS,
    DEFAULT_RENEW_BEFORE_DAYS,
};

#[test]
fn parses_like_std() {
    for t in ["0", "-0", "+5", "42", "-42", "9223372036854775807", "-9223372036854775808", "007",
        "9223372036854775808", "-9223372036854775809", "", "+", "-", " 1", "1 ", "1a", "--1",
        "+-1", "18446744073709551616", "99999999999999999999999999"] {
        assert_eq!(parse_i64(t), t.parse::<i64>().ok(), "i64 {:?}", t);
        assert_eq!(parse_u64(t), t.parse::<u64>().ok(), "u64 {:?}", t);
    }
    assert_eq!(parse_u64("18446744073709551615"), Some(u64::MAX));
    assert_eq!(parse_u64("18446744073709551616"), None);
    assert_eq!(parse_u64("-1"), None);
    assert_eq!(parse_u64("٣"), None);
}

#[test]
fn settings_fall_back_to_defaults() {
    assert_eq!(setting_i64(None, DEFAULT_RENEW_BEFORE_DAYS), 30);
    assert_eq!(setting_i64(Some(""), 30), 30);
    assert_eq!(setting_i64(Some("x"), 30), 30);
    assert_eq!(setting_i64(Some("-5"), 30), -5);
    assert_eq!(setting_u64(None, DEFAULT_CHECK_INTERVAL_SECS), 43200);
    assert_eq!(setting_u64(Some("60"), DEFAULT_CHECK_INTERVAL_SECS), 60);
    assert_eq!(setting_u64(Some("-60"), DEFAULT_DNS_WAIT_SECS), 90);
}

#[test]
fn invalid_domain_position() {
    let names = vec!["example.com".to_string(), "*.example.com".to_string(), "bad_name.com".to_string(), "x".to_string()];
    assert_eq!(first_invalid_domain(&names), Some(2));
    assert_eq!(first_invalid_domain(&names[..2].to_vec()), None);
}

#[test]
fn email_checks() {
    assert_eq!(account_email(None), Err(ConfigError::EmailMissing));
    assert_eq!(account_email(Some("admin.example.com")), Err(ConfigError::EmailInvalid));
    assert_eq!(account_email(Some("admin@example.com")), Ok("admin@example.com".to_string()));
    assert_eq!(contact_uri("admin@example.com"), "mailto:admin@example.com");
}
