use vstd::prelude::*;

use chrono::TimeZone;

verus! {

/// A UTC instant: whole seconds since 1970-01-01 00:00:00 UTC and the
/// nanoseconds past them.
#[derive(Clone, Copy)]
pub struct UtcInstant {
    pub secs: i64,
    pub nanos: u32,
}

/// Whether `chrono::DateTime::from_timestamp(secs, nanos)` gives an instant
/// (the instant is within chrono's range and the nanoseconds are valid).
pub uninterp spec fn spec_from_timestamp_ok(secs: i64, nanos: u32) -> bool;

/// Whether an instant is one that chrono can represent, outside a leap second.
pub open spec fn instant_ok(t: UtcInstant) -> bool {
    t.nanos < 1_000_000_000 && spec_from_timestamp_ok(t.secs, t.nanos)
}

/// `std::time::SystemTime::now().duration_since(UNIX_EPOCH)`: the clock's
/// reading as whole seconds and nanoseconds since 1970; `None` where the clock
/// stands before 1970. The reading depends on the clock, so only what holds of
/// every reading is stated: the nanoseconds are below one second.
#[verifier::external_body]
fn system_clock() -> (r: Option<(u64, u32)>)
    ensures
        r matches Some((_, n)) ==> n < 1_000_000_000,
{
    let d = std::time::SystemTime::now().duration_since(std::time::UNIX_EPOCH).ok()?;
    Some((d.as_secs(), d.subsec_nanos()))
}

/// `chrono::Utc.timestamp_opt(secs, nanos).single()`: the instant `secs` seconds
/// and `nanos` nanoseconds after the epoch, where chrono can represent it (it
/// calls `DateTime::from_timestamp(secs, nanos)`).
#[verifier::external_body]
fn utc_from_timestamp(secs: i64, nanos: u32) -> (r: Option<UtcInstant>)
    ensures
        r is Some <==> spec_from_timestamp_ok(secs, nanos),
        r matches Some(t) ==> t.secs == secs && t.nanos == nanos,
{
    match chrono::Utc.timestamp_opt(secs, nanos).single() {
        Some(dt) => Some(UtcInstant { secs: dt.timestamp(), nanos: dt.timestamp_subsec_nanos() }),
        None => None,
    }
}

/// The instant of a clock reading of `secs` seconds and `nanos` nanoseconds since
/// 1970, where the seconds fit an `i64` and chrono represents the instant.
pub open spec fn spec_instant_from_clock(secs: u64, nanos: u32) -> Option<UtcInstant> {
    if secs <= i64::MAX && spec_from_timestamp_ok(secs as i64, nanos) {
        Some(UtcInstant { secs: secs as i64, nanos })
    } else {
        None
    }
}

/// The instant of a clock reading (see `spec_instant_from_clock`).
pub fn instant_from_clock(secs: u64, nanos: u32) -> (r: Option<UtcInstant>)
    requires
        nanos < 1_000_000_000,
    ensures
        r == spec_instant_from_clock(secs, nanos),
        r matches Some(t) ==> instant_ok(t) && t.secs >= 0,
{
    if secs <= 0x7fff_ffff_ffff_ffff {
        utc_from_timestamp(secs as i64, nanos)
    } else {
        None
    }
}

/// An instant in nanoseconds since the epoch.
pub open spec fn instant_ns(t: UtcInstant) -> int {
    t.secs * 1_000_000_000 + t.nanos
}

/// The whole days in a span of `ns` nanoseconds, rounded toward zero.
pub open spec fn whole_days(ns: int) -> int {
    let day = 86_400_000_000_000int;
    if ns >= 0 {
        ns / day
    } else {
        -((-ns) / day)
    }
}

/// `(later - earlier).num_days()` on chrono's `DateTime<Utc>`: the whole days
/// from `earlier` to `later`, rounded toward zero (the difference is exact for
/// instants outside leap seconds; `num_days` truncates the whole seconds, which
/// `num_seconds` truncates toward zero).
#[verifier::external_body]
fn whole_days_between(later: UtcInstant, earlier: UtcInstant) -> (r: i64)
    requires
        instant_ok(later),
        instant_ok(earlier),
    ensures
        r == whole_days(instant_ns(later) - instant_ns(earlier)),
{
    let a = chrono::DateTime::from_timestamp(later.secs, later.nanos).unwrap();
    let b = chrono::DateTime::from_timestamp(earlier.secs, earlier.nanos).unwrap();
    (a - b).num_days()
}

/// The DER contents of the first PEM block in a byte sequence, as x509-parser
/// reads it; `None` where there is none or it is malformed.
pub uninterp spec fn spec_pem_contents(data: Seq<u8>) -> Option<Seq<u8>>;

/// `x509_parser::pem::parse_x509_pem`: the decoded contents of the first PEM
/// block of `data`. The contract names the result.
#[verifier::external_body]
fn pem_contents(data: &[u8]) -> (r: Option<Vec<u8>>)
    ensures
        r is Some <==> spec_pem_contents(data@) is Some,
        r matches Some(v) ==> spec_pem_contents(data@) == Some(v@),
{
    match x509_parser::pem::parse_x509_pem(data) {
        Ok((_, pem)) => Some(pem.contents),
        Err(_) => None,
    }
}

/// The `notAfter` time, in seconds since the epoch, of a DER certificate as
/// x509-parser reads it; `None` where the certificate does not parse.
pub uninterp spec fn spec_der_not_after(der: Seq<u8>) -> Option<i64>;

/// `x509_parser::parse_x509_certificate`: the certificate's
/// `tbs_certificate.validity.not_after`, given as its Unix timestamp. The
/// contract names the result.
#[verifier::external_body]
fn der_not_after(der: &[u8]) -> (r: Option<i64>)
    ensures
        r == spec_der_not_after(der@),
{
    match x509_parser::parse_x509_certificate(der) {
        Ok((_, cert)) => Some(cert.tbs_certificate.validity.not_after.timestamp()),
        Err(_) => None,
    }
}

/// Why a stored certificate could not be checked.
#[derive(Debug, PartialEq, Eq, Structural)]
pub enum RenewalCheckError {
    /// The file holds no readable PEM block.
    Pem,
    /// The PEM block is no readable X.509 certificate.
    Certificate,
    /// The certificate's `notAfter` lies outside what the clock library represents.
    NotAfterOutOfRange,
    /// The system clock stands before 1970 or beyond what the clock library
    /// represents.
    Clock,
}

/// Whether a certificate that expires `not_after` seconds after the epoch is due
/// for renewal at `now`: at most `thresh` whole days remain.
pub open spec fn renewal_due(not_after: i64, now: UtcInstant, thresh: i64) -> bool {
    whole_days(not_after * 1_000_000_000 - instant_ns(now)) <= thresh
}

/// The verdict on a stored PEM certificate at `now` with a renewal threshold of
/// `thresh` days.
pub open spec fn spec_renewal_decision(pem: Seq<u8>, now: UtcInstant, thresh: i64) -> Result<
    bool,
    RenewalCheckError,
> {
    match spec_pem_contents(pem) {
        None => Err(RenewalCheckError::Pem),
        Some(der) => match spec_der_not_after(der) {
            None => Err(RenewalCheckError::Certificate),
            Some(not_after) => if spec_from_timestamp_ok(not_after, 0) {
                Ok(renewal_due(not_after, now, thresh))
            } else {
                Err(RenewalCheckError::NotAfterOutOfRange)
            },
        },
    }
}

/// Whether the stored certificate `pem` needs renewal at `now` (see
/// `spec_renewal_decision`).
pub fn renewal_decision(pem: &[u8], now: UtcInstant, thresh: i64) -> (r: Result<
    bool,
    RenewalCheckError,
>)
    requires
        instant_ok(now),
    ensures
        r == spec_renewal_decision(pem@, now, thresh),
{
    let der = match pem_contents(pem) {
        Some(d) => d,
        None => return Err(RenewalCheckError::Pem),
    };
    let not_after = match der_not_after(der.as_slice()) {
        Some(t) => t,
        None => return Err(RenewalCheckError::Certificate),
    };
    let expiry = match utc_from_timestamp(not_after, 0) {
        Some(t) => t,
        None => return Err(RenewalCheckError::NotAfterOutOfRange),
    };
    let days = whole_days_between(expiry, now);
    Ok(days <= thresh)
}

/// The verdict on a stored certificate (`pem`, `None` where there is no file)
/// for a clock reading `clock` (seconds and nanoseconds since 1970, `None`
/// where the clock stands before 1970): due where there is no file; `Clock`
/// where the reading is no representable instant; else the verdict of
/// `spec_renewal_decision` at the reading's instant.
pub open spec fn spec_renewal_check(
    pem: Option<Seq<u8>>,
    clock: Option<(u64, u32)>,
    thresh: i64,
) -> Result<bool, RenewalCheckError> {
    match pem {
        None => Ok(true),
        Some(p) => match clock {
            None => Err(RenewalCheckError::Clock),
            Some((secs, nanos)) => match spec_instant_from_clock(secs, nanos) {
                None => Err(RenewalCheckError::Clock),
                Some(now) => spec_renewal_decision(p, now, thresh),
            },
        },
    }
}

/// The view of an optional byte slice.
pub open spec fn opt_bytes(pem: Option<&[u8]>) -> Option<Seq<u8>> {
    match pem {
        Some(p) => Some(p@),
        None => None,
    }
}

/// Whether the stored certificate `pem` needs renewal at the clock reading
/// `clock` (see `spec_renewal_check`).
pub fn renewal_check(pem: Option<&[u8]>, clock: Option<(u64, u32)>, thresh: i64) -> (r: Result<
    bool,
    RenewalCheckError,
>)
    requires
        clock matches Some((_, n)) ==> n < 1_000_000_000,
    ensures
        r == spec_renewal_check(opt_bytes(pem), clock, thresh),
{
    match pem {
        None => Ok(true),
        Some(p) => match clock {
            None => Err(RenewalCheckError::Clock),
            Some((secs, nanos)) => match instant_from_clock(secs, nanos) {
                None => Err(RenewalCheckError::Clock),
                Some(now) => renewal_decision(p, now, thresh),
            },
        },
    }
}

/// Whether the certificate stored at a path needs renewal now: `pem` is the
/// file's content, `None` where there is no file. The clock is read only where
/// there is a file; the answer is `spec_renewal_check` at that reading.
pub fn needs_renewal(pem: Option<&[u8]>, thresh: i64) -> (r: Result<bool, RenewalCheckError>)
    ensures
        pem is None ==> r == Ok::<bool, RenewalCheckError>(true),
        exists|clock: Option<(u64, u32)>|
            (clock matches Some((_, n)) ==> n < 1_000_000_000) && r == spec_renewal_check(
                opt_bytes(pem),
                clock,
                thresh,
            ),
{
    match pem {
        None => {
            let r = renewal_check(pem, None, thresh);
            r
        },
        Some(_) => {
            let clock = system_clock();
            renewal_check(pem, clock, thresh)
        },
    }
}

/// Law: a larger threshold never turns a due certificate into one that is not due,
/// and the threshold never changes whether the check fails.
pub proof fn law_renewal_threshold_monotone(pem: Seq<u8>, now: UtcInstant, t1: i64, t2: i64)
    requires
        t1 <= t2,
    ensures
        spec_renewal_decision(pem, now, t1) == Ok::<bool, RenewalCheckError>(true)
            ==> spec_renewal_decision(pem, now, t2) == Ok::<bool, RenewalCheckError>(true),
        spec_renewal_decision(pem, now, t1) is Err <==> spec_renewal_decision(pem, now, t2) is Err,
{
}

/// Law: a certificate that has expired (its `notAfter` at or before `now`) is
/// due for every threshold of zero or more days.
pub proof fn law_expired_is_due(not_after: i64, now: UtcInstant, thresh: i64)
    requires
        not_after * 1_000_000_000 <= instant_ns(now),
        thresh >= 0,
    ensures
        renewal_due(not_after, now, thresh),
{
    let ns = not_after * 1_000_000_000 - instant_ns(now);
    assert((-ns) / 86_400_000_000_000int >= 0) by (nonlinear_arith)
        requires
            -ns >= 0,
    ;
}

/// Whole days never decrease as a span grows.
proof fn lemma_whole_days_monotone(a: int, b: int)
    requires
        a <= b,
    ensures
        whole_days(a) <= whole_days(b),
{
    let day = 86_400_000_000_000int;
    if a >= 0 {
        vstd::arithmetic::div_mod::lemma_div_is_ordered(a, b, day);
    } else if b < 0 {
        vstd::arithmetic::div_mod::lemma_div_is_ordered(-b, -a, day);
    } else {
        vstd::arithmetic::div_mod::lemma_div_is_ordered(0, b, day);
        vstd::arithmetic::div_mod::lemma_div_is_ordered(0, -a, day);
    }
}

/// Law: a certificate found due at one clock reading stays due at every later
/// reading (for the same stored certificate and threshold), and whether the
/// check fails does not depend on which of two representable readings is taken.
pub proof fn law_renewal_later_clock_stays_due(
    pem: Option<Seq<u8>>,
    early: (u64, u32),
    late: (u64, u32),
    thresh: i64,
)
    requires
        spec_instant_from_clock(early.0, early.1) is Some,
        spec_instant_from_clock(late.0, late.1) is Some,
        early.0 * 1_000_000_000 + early.1 <= late.0 * 1_000_000_000 + late.1,
    ensures
        spec_renewal_check(pem, Some(early), thresh) == Ok::<bool, RenewalCheckError>(true)
            ==> spec_renewal_check(pem, Some(late), thresh) == Ok::<bool, RenewalCheckError>(
            true,
        ),
        spec_renewal_check(pem, Some(early), thresh) is Err <==> spec_renewal_check(
            pem,
            Some(late),
            thresh,
        ) is Err,
{
    if let Some(p) = pem {
        if let Some(der) = spec_pem_contents(p) {
            if let Some(not_after) = spec_der_not_after(der) {
                let e = spec_instant_from_clock(early.0, early.1).unwrap();
                let l = spec_instant_from_clock(late.0, late.1).unwrap();
                lemma_whole_days_monotone(
                    not_after * 1_000_000_000 - instant_ns(l),
                    not_after * 1_000_000_000 - instant_ns(e),
                );
            }
        }
    }
}

} // verus!
