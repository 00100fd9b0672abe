use vstd::prelude::*;

use crate::domain::{spec_valid, valid};
use crate::text::chars_of;

verus! {

/// Days before expiry at which a certificate is renewed, unless configured.
pub const DEFAULT_RENEW_BEFORE_DAYS: i64 = 30;

/// Seconds between two checks of all certificates, unless configured.
pub const DEFAULT_CHECK_INTERVAL_SECS: u64 = 43200;

/// Seconds to wait for new TXT records to be visible, unless configured.
pub const DEFAULT_DNS_WAIT_SECS: u64 = 90;

/// Whether `c` is an ASCII decimal digit.
pub open spec fn is_digit(c: char) -> bool {
    '0' <= c <= '9'
}

/// The number that a string of decimal digits denotes.
pub open spec fn digits_value(d: Seq<char>) -> int
    decreases d.len(),
{
    if d.len() == 0 {
        0
    } else {
        digits_value(d.drop_last()) * 10 + (d.last() as int - 48)
    }
}

/// Whether every character of `d` is an ASCII digit.
pub open spec fn all_digits(d: Seq<char>) -> bool {
    forall|k: int| 0 <= k < d.len() ==> is_digit(#[trigger] d[k])
}

/// Whether `s` starts with a minus sign that counts as one.
pub open spec fn negative_sign(s: Seq<char>, signed: bool) -> bool {
    signed && s.len() > 0 && s[0] == '-'
}

/// `s` without its sign character, if it has one.
pub open spec fn unsigned_part(s: Seq<char>, signed: bool) -> Seq<char> {
    if s.len() > 0 && (s[0] == '+' || negative_sign(s, signed)) {
        s.drop_first()
    } else {
        s
    }
}

/// The integer that `s` spells as `str::parse` reads integers (an optional `+`,
/// or `-` where `signed`, then one or more ASCII digits), before any range check.
pub open spec fn decimal_value(s: Seq<char>, signed: bool) -> Option<int> {
    let d = unsigned_part(s, signed);
    if d.len() > 0 && all_digits(d) {
        Some(
            if negative_sign(s, signed) {
                -digits_value(d)
            } else {
                digits_value(d)
            },
        )
    } else {
        None
    }
}

/// `s` read as an `i64` (`str::parse::<i64>`): `None` where it is malformed or out
/// of range.
pub open spec fn spec_parse_i64(s: Seq<char>) -> Option<i64> {
    match decimal_value(s, true) {
        Some(v) => if i64::MIN <= v <= i64::MAX {
            Some(v as i64)
        } else {
            None
        },
        None => None,
    }
}

/// `s` read as a `u64` (`str::parse::<u64>`): `None` where it is malformed or out
/// of range.
pub open spec fn spec_parse_u64(s: Seq<char>) -> Option<u64> {
    match decimal_value(s, false) {
        Some(v) => if 0 <= v <= u64::MAX {
            Some(v as u64)
        } else {
            None
        },
        None => None,
    }
}

proof fn lemma_digits_nonneg(d: Seq<char>)
    requires
        forall|k: int| 0 <= k < d.len() ==> is_digit(#[trigger] d[k]),
    ensures
        digits_value(d) >= 0,
    decreases d.len(),
{
    if d.len() > 0 {
        assert(is_digit(d[d.len() - 1]));
        assert forall|k: int| 0 <= k < d.len() - 1 implies is_digit(#[trigger] d.drop_last()[k]) by {
            assert(d.drop_last()[k] == d[k]);
        }
        lemma_digits_nonneg(d.drop_last());
    }
}

/// More digits never make a smaller number.
proof fn lemma_digits_grow(d: Seq<char>, i: int)
    requires
        0 <= i <= d.len(),
        forall|k: int| 0 <= k < d.len() ==> is_digit(#[trigger] d[k]),
    ensures
        digits_value(d.take(i)) <= digits_value(d),
    decreases d.len() - i,
{
    if i < d.len() {
        let t = d.take(i + 1);
        assert(t.drop_last() =~= d.take(i));
        assert(t.last() == d[i]);
        assert(is_digit(d[i]));
        assert forall|k: int| 0 <= k < t.len() implies is_digit(#[trigger] t[k]) by {
            assert(t[k] == d[k]);
        }
        assert forall|k: int| 0 <= k < i implies is_digit(#[trigger] d.take(i)[k]) by {
            assert(d.take(i)[k] == d[k]);
        }
        lemma_digits_nonneg(d.take(i));
        lemma_digits_grow(d, i + 1);
    } else {
        assert(d.take(i) =~= d);
    }
}

/// The sign and the digits of `s` read as a decimal: whether it is negative,
/// and the magnitude where the digits are well-formed and below 2^64 + 1.
fn read_decimal(s: &Vec<char>, signed: bool) -> (r: (bool, Option<u128>))
    ensures
        r.0 == (signed && s@.len() > 0 && s@[0] == '-'),
        r.1 matches Some(m) ==> m <= 0x1_0000_0000_0000_0000 && decimal_value(s@, signed) == Some(
            if r.0 {
                -(m as int)
            } else {
                m as int
            },
        ),
        r.1 is None ==> (decimal_value(s@, signed) is None || (decimal_value(s@, signed) matches Some(
            v,
        ) && (v > 0x1_0000_0000_0000_0000 || v < -0x1_0000_0000_0000_0000))),
{
    let n = s.len();
    let neg = signed && n > 0 && s[0] == '-';
    let start: usize = if n > 0 && (s[0] == '+' || neg) {
        1
    } else {
        0
    };
    let ghost d = unsigned_part(s@, signed);
    assert(d =~= s@.skip(start as int));
    if start >= n {
        return (neg, None);
    }
    let mut acc: u128 = 0;
    let mut i: usize = start;
    assert(d.take(0) =~= Seq::<char>::empty());
    while i < n
        invariant
            n == s.len(),
            start <= i <= n,
            d == s@.skip(start as int),
            neg == (signed && s@.len() > 0 && s@[0] == '-'),
            d == unsigned_part(s@, signed),
            forall|k: int| 0 <= k < i - start ==> is_digit(#[trigger] d[k]),
            acc as int == digits_value(d.take(i - start)),
            acc <= 0x1_0000_0000_0000_0000,
        decreases n - i,
    {
        let c = s[i];
        assert(c == d[i - start]);
        if !('0' <= c && c <= '9') {
            assert(!is_digit(d[i - start]));
            assert(!all_digits(d));
            assert(decimal_value(s@, signed) is None);
            return (neg, None);
        }
        let dig = (c as u32 - 48) as u128;
        proof {
            let t = d.take(i - start + 1);
            assert(t.drop_last() =~= d.take(i - start));
            assert(t.last() == c);
        }
        acc = acc * 10 + dig;
        i = i + 1;
        if acc > 0x1_0000_0000_0000_0000 {
            proof {
                assert forall|k: int| 0 <= k < i - start implies is_digit(#[trigger] d.take(i - start)[k]) by {
                    assert(d.take(i - start)[k] == d[k]);
                }
                if all_digits(d) {
                    lemma_digits_grow(d, i - start);
                    assert(digits_value(d) > 0x1_0000_0000_0000_0000);
                    assert(d.len() > 0);
                    assert(decimal_value(s@, signed) == Some(
                        if neg { -digits_value(d) } else { digits_value(d) },
                    ));
                }
            }
            return (neg, None);
        }
    }
    assert(d.take(n - start) =~= d);
    (neg, Some(acc))
}

/// `s` read as an `i64` (see `spec_parse_i64`).
pub fn parse_i64(s: &str) -> (r: Option<i64>)
    ensures
        r == spec_parse_i64(s@),
{
    let chars = chars_of(s);
    let (neg, mag) = read_decimal(&chars, true);
    match mag {
        None => None,
        Some(m) => {
            if neg {
                if m <= 0x8000_0000_0000_0000 {
                    Some((-(m as i128)) as i64)
                } else {
                    None
                }
            } else {
                if m <= 0x7fff_ffff_ffff_ffff {
                    Some(m as i64)
                } else {
                    None
                }
            }
        },
    }
}

/// `s` read as a `u64` (see `spec_parse_u64`).
pub fn parse_u64(s: &str) -> (r: Option<u64>)
    ensures
        r == spec_parse_u64(s@),
{
    let chars = chars_of(s);
    let (_, mag) = read_decimal(&chars, false);
    match mag {
        None => None,
        Some(m) => if m <= 0xffff_ffff_ffff_ffff {
            Some(m as u64)
        } else {
            None
        },
    }
}

/// A configured integer setting: the variable's text read as an `i64`, or
/// `default` where the variable is missing or does not read as one.
pub fn setting_i64(raw: Option<&str>, default: i64) -> (r: i64)
    ensures
        r == match raw {
            Some(s) => match spec_parse_i64(s@) {
                Some(v) => v,
                None => default,
            },
            None => default,
        },
{
    match raw {
        Some(s) => match parse_i64(s) {
            Some(v) => v,
            None => default,
        },
        None => default,
    }
}

/// A configured unsigned setting: the variable's text read as a `u64`, or
/// `default` where the variable is missing or does not read as one.
pub fn setting_u64(raw: Option<&str>, default: u64) -> (r: u64)
    ensures
        r == match raw {
            Some(s) => match spec_parse_u64(s@) {
                Some(v) => v,
                None => default,
            },
            None => default,
        },
{
    match raw {
        Some(s) => match parse_u64(s) {
            Some(v) => v,
            None => default,
        },
        None => default,
    }
}

/// The position of the first name of `names` that is not acceptable (see
/// `spec_valid`), if any.
pub fn first_invalid_domain(names: &Vec<String>) -> (r: Option<usize>)
    ensures
        r matches Some(i) ==> i < names.len() && !spec_valid(names@[i as int]@) && forall|k: int|
            0 <= k < i ==> spec_valid(#[trigger] names@[k]@),
        r is None ==> forall|k: int| 0 <= k < names.len() ==> spec_valid(#[trigger] names@[k]@),
{
    let mut i: usize = 0;
    while i < names.len()
        invariant
            0 <= i <= names.len(),
            forall|k: int| 0 <= k < i ==> spec_valid(#[trigger] names@[k]@),
        decreases names.len() - i,
    {
        if !valid(names[i].as_str()) {
            return Some(i);
        }
        i = i + 1;
    }
    None
}

/// Why the configuration is refused.
#[derive(Debug, PartialEq, Eq, Structural)]
pub enum ConfigError {
    /// The account e-mail address is missing.
    EmailMissing,
    /// The account e-mail address holds no `@`.
    EmailInvalid,
}

/// The account e-mail address, where it is given and holds an `@`.
pub fn account_email(raw: Option<&str>) -> (r: Result<String, ConfigError>)
    ensures
        raw is None ==> r matches Err(ConfigError::EmailMissing),
        raw matches Some(e) ==> (if e@.contains('@') {
            r matches Ok(v) && v@ == e@
        } else {
            r matches Err(ConfigError::EmailInvalid)
        }),
{
    match raw {
        None => Err(ConfigError::EmailMissing),
        Some(e) => {
            let chars = chars_of(e);
            if crate::domain::contains_char(&chars, '@') {
                Ok(e.to_owned())
            } else {
                Err(ConfigError::EmailInvalid)
            }
        },
    }
}

/// The contact URI of the ACME account for an e-mail address.
pub fn contact_uri(email: &str) -> (r: String)
    ensures
        r@ == "mailto:"@ + email@,
{
    let mut r = "mailto:".to_owned();
    r.append(email);
    r
}

} // verus!
