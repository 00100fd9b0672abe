use rustacme::renewal::{instant_from_clock, needs_renewal, renewal_check, RenewalCheckError};

fn cert_pem(not_after_year: i32) -> String {
    let mut params = rcgen::CertificateParams::new(vec!["example.com".to_string()]);
    params.not_before = rcgen::date_time_ymd(1990, 1, 1);
    params.not_after = rcgen::date_time_ymd(not_after_year, 1, 1);
    rcgen::Certificate::from_params(params).unwrap().serialize_pem().unwrap()
}

#[test]
fn missing_file_is_due() {
    assert_eq!(needs_renewal(None, 30), Ok(true));
    assert_eq!(needs_renewal(None, i64::MIN), Ok(true));
}

#[test]
fn far_expiry_is_not_due() {
    let pem = cert_pem(4000);
    assert_eq!(needs_renewal(Some(pem.as_bytes()), 30), Ok(false));
    // With a threshold beyond the remaining days it is due.
    assert_eq!(needs_renewal(Some(pem.as_bytes()), i64::MAX), Ok(true));
}

#[test]
fn expired_is_due() {
    let pem = cert_pem(2000);
    assert_eq!(needs_renewal(Some(pem.as_bytes()), 0), Ok(true));
    assert_eq!(needs_renewal(Some(pem.as_bytes()), 30), Ok(true));
    // A negative threshold below the days since expiry says "not due".
    assert_eq!(needs_renewal(Some(pem.as_bytes()), -1_000_000), Ok(false));
}

#[test]
fn bad_files_are_errors() {
    assert_eq!(needs_renewal(Some(b"not a pem"), 30), Err(RenewalCheckError::Pem));
    let garbage = b"-----BEGIN CERTIFICATE-----\nAAAA\n-----END CERTIFICATE-----\n";
    assert_eq!(needs_renewal(Some(garbage), 30), Err(RenewalCheckError::Certificate));
}

#[test]
fn verdict_at_a_given_clock() {
    let pem = cert_pem(2100);
    let p = Some(pem.as_bytes());
    // 2100-01-01 is 4102444800 s after the epoch.
    let expiry: u64 = 4_102_444_800;
    assert_eq!(renewal_check(p, Some((expiry - 31 * 86_400, 0)), 30), Ok(false));
    assert_eq!(renewal_check(p, Some((expiry - 30 * 86_400, 0)), 30), Ok(true));
    assert_eq!(renewal_check(p, Some((expiry - 31 * 86_400, 1)), 30), Ok(true));
    assert_eq!(renewal_check(p, Some((0, 0)), 30), Ok(false));
    assert_eq!(renewal_check(p, None, 30), Err(RenewalCheckError::Clock));
    assert_eq!(renewal_check(p, Some((u64::MAX, 0)), 30), Err(RenewalCheckError::Clock));
    assert_eq!(renewal_check(None, None, 30), Ok(true));
}

#[test]
fn clock_readings() {
    let t = instant_from_clock(1_700_000_000, 5).unwrap();
    assert_eq!((t.secs, t.nanos), (1_700_000_000, 5));
    assert!(instant_from_clock(i64::MAX as u64, 0).is_none());
    assert!(instant_from_clock(i64::MAX as u64 + 1, 0).is_none());
}
