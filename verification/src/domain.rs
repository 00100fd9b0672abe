use vstd::prelude::*;

use crate::text::{chars_equal_str, chars_of, string_from_chars, utf8_len_at_most};
use vstd::utf8::encode_utf8;

verus! {

/// The index of the first `sep` in `s`, or `s.len()` when `s` holds none.
pub open spec fn first_index(s: Seq<char>, sep: char) -> nat
    decreases s.len(),
{
    if s.len() == 0 {
        0
    } else if s[0] == sep {
        0
    } else {
        1 + first_index(s.drop_first(), sep)
    }
}

/// The pieces of `s` between occurrences of `sep`, as `str::split` with a
/// character pattern yields them: one piece more than there are separators.
pub open spec fn split_on(s: Seq<char>, sep: char) -> Seq<Seq<char>>
    decreases s.len(),
{
    let i = first_index(s, sep);
    if i >= s.len() {
        seq![s]
    } else {
        seq![s.take(i as int)] + split_on(s.skip(i as int + 1), sep)
    }
}

/// The pieces joined with `sep` between neighbours, as `[&str]::join` gives it.
pub open spec fn join_with(parts: Seq<Seq<char>>, sep: char) -> Seq<char>
    decreases parts.len(),
{
    if parts.len() == 0 {
        seq![]
    } else if parts.len() == 1 {
        parts[0]
    } else {
        join_with(parts.drop_last(), sep).push(sep) + parts.last()
    }
}

pub proof fn lemma_first_index(s: Seq<char>, sep: char)
    ensures
        first_index(s, sep) <= s.len(),
        forall|k: int| 0 <= k < first_index(s, sep) ==> s[k] != sep,
        first_index(s, sep) < s.len() ==> s[first_index(s, sep) as int] == sep,
    decreases s.len(),
{
    if s.len() > 0 && s[0] != sep {
        lemma_first_index(s.drop_first(), sep);
        assert forall|k: int| 0 <= k < first_index(s, sep) implies s[k] != sep by {
            if k > 0 {
                assert(s[k] == s.drop_first()[k - 1]);
            }
        }
    }
}

/// A piece without separator ends at the separator that follows it.
proof fn lemma_first_index_after(c: Seq<char>, r: Seq<char>, sep: char)
    requires
        !c.contains(sep),
    ensures
        first_index(c + r, sep) == c.len() + first_index(r, sep),
    decreases c.len(),
{
    if c.len() > 0 {
        assert(c[0] != sep);
        assert((c + r)[0] == c[0]);
        assert((c + r).drop_first() =~= c.drop_first() + r);
        assert(!c.drop_first().contains(sep)) by {
            if c.drop_first().contains(sep) {
                let k = choose|k: int| 0 <= k < c.drop_first().len() && c.drop_first()[k] == sep;
                assert(c[k + 1] == sep);
            }
        }
        lemma_first_index_after(c.drop_first(), r, sep);
    } else {
        assert(c + r =~= r);
    }
}

/// Splitting a piece, a separator and a rest gives the piece, then the rest's pieces.
pub proof fn lemma_split_cons(c: Seq<char>, r: Seq<char>, sep: char)
    requires
        !c.contains(sep),
    ensures
        split_on(c + seq![sep] + r, sep) == seq![c] + split_on(r, sep),
{
    let s = c + seq![sep] + r;
    lemma_first_index_after(c, seq![sep] + r, sep);
    assert(c + seq![sep] + r =~= c + (seq![sep] + r));
    assert(first_index(seq![sep] + r, sep) == 0);
    assert(s.take(c.len() as int) =~= c);
    assert(s.skip(c.len() as int + 1) =~= r);
}

/// A piece without separator is its own single piece.
pub proof fn lemma_split_single(c: Seq<char>, sep: char)
    requires
        !c.contains(sep),
    ensures
        split_on(c, sep) == seq![c],
{
    lemma_first_index_after(c, seq![], sep);
    assert(c + seq![] =~= c);
}

/// Joining a first piece before at least one more.
pub proof fn lemma_join_cons(a: Seq<char>, rest: Seq<Seq<char>>, sep: char)
    requires
        rest.len() > 0,
    ensures
        join_with(seq![a] + rest, sep) == a.push(sep) + join_with(rest, sep),
    decreases rest.len(),
{
    let p = seq![a] + rest;
    if rest.len() == 1 {
        assert(p.drop_last() =~= seq![a]);
        assert(join_with(seq![a], sep) == a);
        assert(p.last() == rest[0]);
        assert(join_with(rest, sep) == rest[0]);
    } else {
        assert(join_with(rest, sep) == join_with(rest.drop_last(), sep).push(sep) + rest.last());
        assert(p.drop_last() =~= seq![a] + rest.drop_last());
        lemma_join_cons(a, rest.drop_last(), sep);
        assert(p.last() == rest.last());
        assert(a.push(sep) + join_with(rest.drop_last(), sep).push(sep) + rest.last() =~= a.push(sep)
            + (join_with(rest.drop_last(), sep).push(sep) + rest.last()));
    }
}

/// Joining the pieces of a split with the same separator gives the text back.
pub proof fn lemma_join_split(s: Seq<char>, sep: char)
    ensures
        join_with(split_on(s, sep), sep) == s,
    decreases s.len(),
{
    let i = first_index(s, sep);
    lemma_first_index(s, sep);
    if i < s.len() {
        let c = s.take(i as int);
        let r = s.skip(i as int + 1);
        lemma_join_split(r, sep);
        let rs = split_on(r, sep);
        assert(rs.len() > 0) by {
            lemma_split_nonempty(r, sep);
        }
        lemma_join_cons(c, rs, sep);
        assert(split_on(s, sep) == seq![c] + rs);
        assert(c.push(sep) + r =~= s);
    }
}

/// A split has at least one piece.
pub proof fn lemma_split_nonempty(s: Seq<char>, sep: char)
    ensures
        split_on(s, sep).len() >= 1,
    decreases s.len(),
{
    let i = first_index(s, sep);
    if i < s.len() {
        lemma_split_nonempty(s.skip(i as int + 1), sep);
    }
}

/// Joining the first `m` pieces and the rest, with a separator between them,
/// gives the join of all pieces.
pub proof fn lemma_join_halves(p: Seq<Seq<char>>, m: int, sep: char)
    requires
        0 < m < p.len(),
    ensures
        join_with(p.take(m), sep).push(sep) + join_with(p.skip(m), sep) == join_with(p, sep),
    decreases p.len(),
{
    if m == p.len() - 1 {
        assert(p.take(m) =~= p.drop_last());
        assert(p.skip(m) =~= seq![p.last()]);
    } else {
        let pd = p.drop_last();
        lemma_join_halves(pd, m, sep);
        assert(pd.take(m) =~= p.take(m));
        assert(p.skip(m).drop_last() =~= pd.skip(m));
        assert(p.skip(m).last() == p.last());
        let a = join_with(p.take(m), sep).push(sep);
        let b = join_with(pd.skip(m), sep).push(sep) + p.last();
        assert(a + b =~= (a + join_with(pd.skip(m), sep)).push(sep) + p.last());
    }
}

/// No piece of a split holds the separator.
pub proof fn lemma_split_no_sep(s: Seq<char>, sep: char)
    ensures
        forall|i: int| 0 <= i < split_on(s, sep).len() ==> !(#[trigger] split_on(s, sep)[i]).contains(sep),
    decreases s.len(),
{
    let i = first_index(s, sep);
    lemma_first_index(s, sep);
    if i < s.len() {
        let r = s.skip(i as int + 1);
        lemma_split_no_sep(r, sep);
        let c = s.take(i as int);
        assert(!c.contains(sep)) by {
            if c.contains(sep) {
                let k = choose|k: int| 0 <= k < c.len() && c[k] == sep;
                assert(s[k] == sep);
            }
        }
        assert forall|j: int| 0 <= j < split_on(s, sep).len() implies !(#[trigger] split_on(
            s,
            sep,
        )[j]).contains(sep) by {
            if j > 0 {
                assert(split_on(s, sep)[j] == split_on(r, sep)[j - 1]);
            }
        }
    } else {
        assert(!s.contains(sep)) by {
            if s.contains(sep) {
                let k = choose|k: int| 0 <= k < s.len() && s[k] == sep;
                assert(s[k] != sep);
            }
        }
    }
}

/// Splitting the join of pieces without separator gives the pieces back.
pub proof fn lemma_split_join(ps: Seq<Seq<char>>, sep: char)
    requires
        ps.len() >= 1,
        forall|i: int| 0 <= i < ps.len() ==> !(#[trigger] ps[i]).contains(sep),
    ensures
        split_on(join_with(ps, sep), sep) == ps,
    decreases ps.len(),
{
    if ps.len() == 1 {
        assert(!ps[0].contains(sep));
        lemma_split_single(ps[0], sep);
        assert(seq![ps[0]] =~= ps);
    } else {
        let a = ps[0];
        let rest = ps.drop_first();
        assert(ps =~= seq![a] + rest);
        assert(!a.contains(sep));
        assert forall|i: int| 0 <= i < rest.len() implies !(#[trigger] rest[i]).contains(sep) by {
            assert(rest[i] == ps[i + 1]);
        }
        lemma_join_cons(a, rest, sep);
        lemma_split_join(rest, sep);
        assert(a.push(sep) + join_with(rest, sep) =~= a + seq![sep] + join_with(rest, sep));
        lemma_split_cons(a, join_with(rest, sep), sep);
    }
}

/// The first piece of a split starts where the text starts.
proof fn lemma_split_first(s: Seq<char>, sep: char)
    ensures
        split_on(s, sep).len() >= 1,
        split_on(s, sep)[0].len() > 0 ==> s.len() > 0 && s[0] == split_on(s, sep)[0][0],
{
    lemma_split_nonempty(s, sep);
    lemma_first_index(s, sep);
}

/// A join starts with its first piece.
proof fn lemma_join_first(ps: Seq<Seq<char>>, sep: char)
    requires
        ps.len() >= 1,
        ps[0].len() > 0,
    ensures
        join_with(ps, sep).len() > 0,
        join_with(ps, sep)[0] == ps[0][0],
{
    if ps.len() > 1 {
        let rest = ps.drop_first();
        assert(ps =~= seq![ps[0]] + rest);
        lemma_join_cons(ps[0], rest, sep);
    }
}

/// `s` without one leading `*.`, as `strip_prefix("*.")` leaves it.
pub open spec fn strip_wildcard(s: Seq<char>) -> Seq<char> {
    if s.len() >= 2 && s[0] == '*' && s[1] == '.' {
        s.skip(2)
    } else {
        s
    }
}

/// The second-level suffixes under which a registered domain has three labels.
pub open spec fn is_two_level_suffix(a: Seq<char>, b: Seq<char>) -> bool {
    ||| a == "com"@ && b == "cn"@
    ||| a == "net"@ && b == "cn"@
    ||| a == "org"@ && b == "cn"@
    ||| a == "gov"@ && b == "cn"@
    ||| a == "edu"@ && b == "cn"@
    ||| a == "ac"@ && b == "cn"@
    ||| a == "com"@ && b == "hk"@
    ||| a == "net"@ && b == "hk"@
    ||| a == "org"@ && b == "hk"@
    ||| a == "gov"@ && b == "hk"@
    ||| a == "edu"@ && b == "hk"@
}

/// The number of labels that make up the registered domain of a name split into
/// `parts`: three under a two-level suffix, else two.
pub open spec fn base_count(parts: Seq<Seq<char>>) -> nat {
    let n = parts.len();
    if n >= 3 && is_two_level_suffix(parts[n - 2], parts[n - 1]) {
        3
    } else {
        2
    }
}

/// The zone (registered domain) and the host prefix of a name, as the DNS API
/// needs them for a DNS-01 challenge.
pub open spec fn spec_zone_info(fqdn: Seq<char>) -> (Seq<char>, Seq<char>) {
    let s = strip_wildcard(fqdn);
    let parts = split_on(s, '.');
    let n = parts.len();
    if n < 2 {
        (s, seq![])
    } else if n <= base_count(parts) {
        (s, seq![])
    } else {
        let b = base_count(parts);
        (join_with(parts.skip(n - b), '.'), join_with(parts.take(n - b), '.'))
    }
}

/// The view of a vector of character vectors.
pub open spec fn pieces(v: Seq<Vec<char>>) -> Seq<Seq<char>> {
    Seq::new(v.len(), |i: int| v[i]@)
}

/// `s` without one leading `*.`.
pub fn strip_wildcard_chars(s: &Vec<char>) -> (r: Vec<char>)
    ensures
        r@ == strip_wildcard(s@),
{
    let n = s.len();
    let start: usize = if n >= 2 && s[0] == '*' && s[1] == '.' {
        2
    } else {
        0
    };
    let mut r: Vec<char> = Vec::new();
    let mut i: usize = start;
    while i < n
        invariant
            n == s.len(),
            start <= i <= n,
            r@ == s@.subrange(start as int, i as int),
        decreases n - i,
    {
        r.push(s[i]);
        i = i + 1;
    }
    assert(r@ =~= s@.skip(start as int));
    r
}

/// The pieces of `s` between occurrences of `sep`.
pub fn split_chars(s: &Vec<char>, sep: char) -> (r: Vec<Vec<char>>)
    ensures
        pieces(r@) == split_on(s@, sep),
{
    let n = s.len();
    let mut parts: Vec<Vec<char>> = Vec::new();
    let mut cur: Vec<char> = Vec::new();
    let mut i: usize = 0;
    assert(pieces(parts@) =~= Seq::<Seq<char>>::empty());
    assert(cur@ + s@.skip(0) =~= s@);
    while i < n
        invariant
            n == s.len(),
            0 <= i <= n,
            !cur@.contains(sep),
            split_on(s@, sep) == pieces(parts@) + split_on(cur@ + s@.skip(i as int), sep),
        decreases n - i,
    {
        let c = s[i];
        let ghost rest = s@.skip(i + 1);
        assert(s@.skip(i as int) =~= seq![c] + rest);
        if c == sep {
            proof {
                lemma_split_cons(cur@, rest, sep);
                assert(cur@ + s@.skip(i as int) =~= cur@ + seq![sep] + rest);
                assert(Seq::<char>::empty() + rest =~= rest);
            }
            let ghost old_parts = parts@;
            let ghost cv = cur@;
            parts.push(cur);
            cur = Vec::new();
            assert(pieces(parts@) =~= pieces(old_parts).push(cv));
            assert(pieces(parts@) + split_on(rest, sep) =~= pieces(old_parts) + (seq![cv] + split_on(rest, sep)));
            assert(cur@ + s@.skip(i + 1) =~= rest);
        } else {
            let ghost old_cur = cur@;
            cur.push(c);
            assert(cur@ + s@.skip(i + 1) =~= old_cur + s@.skip(i as int));
            assert(!cur@.contains(sep)) by {
                if cur@.contains(sep) {
                    let k = choose|k: int| 0 <= k < cur@.len() && cur@[k] == sep;
                    if k < old_cur.len() {
                        assert(old_cur[k] == sep);
                    }
                }
            }
        }
        i = i + 1;
    }
    proof {
        assert(cur@ + s@.skip(n as int) =~= cur@);
        lemma_split_single(cur@, sep);
    }
    let ghost old_parts = parts@;
    parts.push(cur);
    assert(pieces(parts@) =~= pieces(old_parts) + seq![parts@.last()@]);
    parts
}

/// Appends the characters of `s` to `r`.
pub fn append_chars(r: &mut Vec<char>, s: &Vec<char>)
    ensures
        final(r)@ == old(r)@ + s@,
{
    let mut i: usize = 0;
    while i < s.len()
        invariant
            0 <= i <= s.len(),
            r@ == old(r)@ + s@.take(i as int),
        decreases s.len() - i,
    {
        r.push(s[i]);
        i = i + 1;
        assert(old(r)@ + s@.take(i as int) =~= (old(r)@ + s@.take(i - 1)).push(s@[i - 1]));
    }
    assert(s@.take(s.len() as int) =~= s@);
}

/// The pieces `lo..hi` of `parts`, joined with `sep`.
pub fn join_range(parts: &Vec<Vec<char>>, lo: usize, hi: usize, sep: char) -> (r: Vec<char>)
    requires
        lo < hi <= parts.len(),
    ensures
        r@ == join_with(pieces(parts@).subrange(lo as int, hi as int), sep),
{
    let ghost p = pieces(parts@);
    let mut r: Vec<char> = Vec::new();
    append_chars(&mut r, &parts[lo]);
    assert(p.subrange(lo as int, lo + 1) =~= seq![parts@[lo as int]@]);
    let mut k: usize = lo + 1;
    while k < hi
        invariant
            lo < k <= hi <= parts.len(),
            p == pieces(parts@),
            r@ == join_with(p.subrange(lo as int, k as int), sep),
        decreases hi - k,
    {
        let ghost prev = r@;
        r.push(sep);
        append_chars(&mut r, &parts[k]);
        proof {
            let sub = p.subrange(lo as int, k + 1);
            assert(sub.drop_last() =~= p.subrange(lo as int, k as int));
            assert(sub.last() == parts@[k as int]@);
        }
        k = k + 1;
    }
    r
}

/// Whether `a.b` is one of the second-level suffixes of `is_two_level_suffix`.
pub fn two_level_suffix(a: &Vec<char>, b: &Vec<char>) -> (r: bool)
    ensures
        r == is_two_level_suffix(a@, b@),
{
    if chars_equal_str(b, "cn") {
        chars_equal_str(a, "com") || chars_equal_str(a, "net") || chars_equal_str(a, "org")
            || chars_equal_str(a, "gov") || chars_equal_str(a, "edu") || chars_equal_str(a, "ac")
    } else if chars_equal_str(b, "hk") {
        chars_equal_str(a, "com") || chars_equal_str(a, "net") || chars_equal_str(a, "org")
            || chars_equal_str(a, "gov") || chars_equal_str(a, "edu")
    } else {
        false
    }
}

/// The zone (registered domain for the DNS API) and the host prefix to put before
/// `_acme-challenge` for a DNS-01 challenge on `fqdn`; the prefix is empty for
/// the apex. A leading `*.` is ignored.
pub fn zone_info(fqdn: &str) -> (r: (String, String))
    ensures
        r.0@ == spec_zone_info(fqdn@).0,
        r.1@ == spec_zone_info(fqdn@).1,
{
    let chars = chars_of(fqdn);
    let s = strip_wildcard_chars(&chars);
    let parts = split_chars(&s, '.');
    let n = parts.len();
    let ghost p = pieces(parts@);
    if n < 2 {
        return (string_from_chars(&s), String::new());
    }
    let is_2 = n >= 3 && two_level_suffix(&parts[n - 2], &parts[n - 1]);
    assert(p[n - 2] == parts@[n - 2]@ && p[n - 1] == parts@[n - 1]@);
    let base: usize = if is_2 {
        3
    } else {
        2
    };
    assert(base == base_count(p));
    if n <= base {
        (string_from_chars(&s), String::new())
    } else {
        let zone = join_range(&parts, n - base, n, '.');
        let sub = join_range(&parts, 0, n - base, '.');
        assert(p.subrange((n - base) as int, n as int) =~= p.skip((n - base) as int));
        assert(p.subrange(0, (n - base) as int) =~= p.take((n - base) as int));
        (string_from_chars(&zone), string_from_chars(&sub))
    }
}

/// Law: the prefix, a dot and the zone spell the name again (without a leading
/// `*.`); where the name was left whole, the prefix is empty.
pub proof fn law_zone_info_reassembles(fqdn: Seq<char>)
    ensures
        ({
            let (zone, prefix) = spec_zone_info(fqdn);
            ||| prefix.len() == 0 && zone == strip_wildcard(fqdn)
            ||| prefix.push('.') + zone == strip_wildcard(fqdn)
        }),
{
    let s = strip_wildcard(fqdn);
    let parts = split_on(s, '.');
    let n = parts.len();
    if n >= 2 && n > base_count(parts) {
        let b = base_count(parts);
        lemma_join_halves(parts, n - b, '.');
        lemma_join_split(s, '.');
    }
}

/// Law: for an acceptable name, the zone is its own zone: `zone_info` of the zone
/// gives the zone back with an empty prefix.
pub proof fn law_zone_info_zone_is_fixed(fqdn: Seq<char>)
    requires
        spec_valid(fqdn),
    ensures
        spec_zone_info(spec_zone_info(fqdn).0) == (spec_zone_info(fqdn).0, Seq::<char>::empty()),
{
    let s = strip_wildcard(fqdn);
    let parts = split_on(s, '.');
    let n = parts.len();
    lemma_split_nonempty(s, '.');
    lemma_split_no_sep(s, '.');
    let b = base_count(parts);
    if n < 2 || n <= b {
        assert(label_ok(parts[0]));
        lemma_split_first(s, '.');
        assert(is_label_char(parts[0][0]));
        assert(strip_wildcard(s) == s);
    } else {
        let ps = parts.skip(n - b);
        assert forall|i: int| 0 <= i < ps.len() implies !(#[trigger] ps[i]).contains('.') by {
            assert(ps[i] == parts[i + n - b]);
            assert(!parts[i + n - b].contains('.'));
        }
        lemma_split_join(ps, '.');
        assert(ps[0] == parts[n - b]);
        assert(label_ok(parts[n - b]));
        lemma_join_first(ps, '.');
        assert(is_label_char(ps[0][0]));
        let z = join_with(ps, '.');
        assert(strip_wildcard(z) == z);
        if b == 3 {
            assert(ps[1] == parts[n - 2]);
            assert(ps[2] == parts[n - 1]);
        }
        assert(base_count(ps) == b);
    }
}

/// The name `x.y.a.b` made of four labels.
pub open spec fn four_labels(x: Seq<char>, y: Seq<char>, a: Seq<char>, b: Seq<char>) -> Seq<char> {
    x + seq!['.'] + y + seq!['.'] + a + seq!['.'] + b
}

/// Whether a label is non-empty and holds no dot.
pub open spec fn plain_piece(l: Seq<char>) -> bool {
    l.len() > 0 && !l.contains('.')
}

proof fn lemma_split_four(x: Seq<char>, y: Seq<char>, a: Seq<char>, b: Seq<char>)
    requires
        plain_piece(x),
        plain_piece(y),
        plain_piece(a),
        plain_piece(b),
    ensures
        split_on(four_labels(x, y, a, b), '.') == seq![x, y, a, b],
{
    let r3 = a + seq!['.'] + b;
    let r2 = y + seq!['.'] + r3;
    lemma_split_single(b, '.');
    lemma_split_cons(a, b, '.');
    lemma_split_cons(y, r3, '.');
    lemma_split_cons(x, r2, '.');
    assert(four_labels(x, y, a, b) =~= x + seq!['.'] + r2);
    assert(seq![a] + seq![b] =~= seq![a, b]);
    assert(seq![y] + seq![a, b] =~= seq![y, a, b]);
    assert(seq![x] + seq![y, a, b] =~= seq![x, y, a, b]);
}

/// Law: the registered zone of a four-label name `x.y.a.b` is `y.a.b` with prefix
/// `x` exactly when `a.b` is one of the second-level suffixes com.cn, net.cn,
/// org.cn, gov.cn, edu.cn, ac.cn, com.hk, net.hk, org.hk, gov.hk and edu.hk;
/// otherwise it is `a.b` with prefix `x.y`.
pub proof fn law_zone_info_two_level_table(x: Seq<char>, y: Seq<char>, a: Seq<char>, b: Seq<char>)
    requires
        plain_piece(x),
        plain_piece(y),
        plain_piece(a),
        plain_piece(b),
        x[0] != '*',
    ensures
        spec_zone_info(four_labels(x, y, a, b)) == (if (b == "cn"@ && (a == "com"@ || a == "net"@
            || a == "org"@ || a == "gov"@ || a == "edu"@ || a == "ac"@)) || (b == "hk"@ && (a
            == "com"@ || a == "net"@ || a == "org"@ || a == "gov"@ || a == "edu"@)) {
            (y + seq!['.'] + a + seq!['.'] + b, x)
        } else {
            (a + seq!['.'] + b, x + seq!['.'] + y)
        }),
{
    let s = four_labels(x, y, a, b);
    assert(s[0] == x[0]);
    assert(strip_wildcard(s) == s);
    lemma_split_four(x, y, a, b);
    let parts = seq![x, y, a, b];
    assert(parts[2] == a && parts[3] == b);
    let p1 = parts.skip(1);
    assert(p1 =~= seq![y, a, b]);
    assert(p1.drop_last() =~= seq![y, a]);
    assert(seq![y, a].drop_last() =~= seq![y]);
    assert(join_with(seq![y], '.') == y);
    assert(join_with(seq![y, a], '.') == y.push('.') + a);
    assert(join_with(p1, '.') =~= y + seq!['.'] + a + seq!['.'] + b);
    assert(parts.take(1) =~= seq![x]);
    assert(join_with(seq![x], '.') == x);
    let p2 = parts.skip(2);
    assert(p2 =~= seq![a, b]);
    assert(p2.drop_last() =~= seq![a]);
    assert(join_with(seq![a], '.') == a);
    assert(join_with(p2, '.') =~= a + seq!['.'] + b);
    let t2 = parts.take(2);
    assert(t2 =~= seq![x, y]);
    assert(t2.drop_last() =~= seq![x]);
    assert(join_with(t2, '.') =~= x + seq!['.'] + y);
}

/// Law: a wildcard name has the zone and prefix of the name it covers.
pub proof fn law_zone_info_wildcard(name: Seq<char>)
    requires
        !(name.len() >= 2 && name[0] == '*' && name[1] == '.'),
    ensures
        spec_zone_info(seq!['*', '.'] + name) == spec_zone_info(name),
{
    assert((seq!['*', '.'] + name).skip(2) =~= name);
}

/// Whether `c` may stand in a DNS label: an ASCII letter or digit, or `-`.
pub open spec fn is_label_char(c: char) -> bool {
    ||| 'a' <= c <= 'z'
    ||| 'A' <= c <= 'Z'
    ||| '0' <= c <= '9'
    ||| c == '-'
}

/// A DNS label: 1 to 63 bytes of letters, digits and `-`, not starting or
/// ending with `-`.
pub open spec fn label_ok(l: Seq<char>) -> bool {
    &&& l.len() > 0
    &&& encode_utf8(l).len() <= 63
    &&& l[0] != '-'
    &&& l.last() != '-'
    &&& forall|k: int| 0 <= k < l.len() ==> is_label_char(#[trigger] l[k])
}

/// Whether a configured name is accepted: after one leading `*.` is dropped it is
/// non-empty, at most 253 bytes, holds a dot, and every dot-separated label is
/// a valid DNS label.
pub open spec fn spec_valid(d: Seq<char>) -> bool {
    let s = strip_wildcard(d);
    let labels = split_on(s, '.');
    &&& s.len() > 0
    &&& encode_utf8(s).len() <= 253
    &&& s.contains('.')
    &&& forall|i: int| 0 <= i < labels.len() ==> label_ok(#[trigger] labels[i])
}

/// Whether `l` is a DNS label in the sense of `label_ok`.
pub fn label_valid(l: &Vec<char>) -> (r: bool)
    ensures
        r == label_ok(l@),
{
    let n = l.len();
    if n == 0 || !utf8_len_at_most(l, 63) || l[0] == '-' || l[n - 1] == '-' {
        return false;
    }
    let mut i: usize = 0;
    while i < n
        invariant
            n == l.len(),
            0 <= i <= n,
            forall|k: int| 0 <= k < i ==> is_label_char(#[trigger] l@[k]),
        decreases n - i,
    {
        let c = l[i];
        let ok = ('a' <= c && c <= 'z') || ('A' <= c && c <= 'Z') || ('0' <= c && c <= '9') || c
            == '-';
        if !ok {
            return false;
        }
        i = i + 1;
    }
    true
}

/// Whether `v` holds the character `c`.
pub fn contains_char(v: &Vec<char>, c: char) -> (r: bool)
    ensures
        r == v@.contains(c),
{
    let mut i: usize = 0;
    while i < v.len()
        invariant
            0 <= i <= v.len(),
            forall|k: int| 0 <= k < i ==> v@[k] != c,
        decreases v.len() - i,
    {
        if v[i] == c {
            return true;
        }
        i = i + 1;
    }
    false
}

/// Whether a configured certificate name is acceptable (see `spec_valid`).
pub fn valid(d: &str) -> (r: bool)
    ensures
        r == spec_valid(d@),
{
    let chars = chars_of(d);
    let s = strip_wildcard_chars(&chars);
    if s.len() == 0 || !utf8_len_at_most(&s, 253) || !contains_char(&s, '.') {
        return false;
    }
    let labels = split_chars(&s, '.');
    let ghost p = pieces(labels@);
    let mut i: usize = 0;
    while i < labels.len()
        invariant
            0 <= i <= labels.len(),
            p == pieces(labels@),
            p == split_on(s@, '.'),
            s@ == strip_wildcard(d@),
            forall|k: int| 0 <= k < i ==> label_ok(#[trigger] p[k]),
        decreases labels.len() - i,
    {
        if !label_valid(&labels[i]) {
            assert(p[i as int] == labels@[i as int]@);
            assert(!label_ok(split_on(strip_wildcard(d@), '.')[i as int]));
            return false;
        }
        assert(p[i as int] == labels@[i as int]@);
        i = i + 1;
    }
    true
}

/// Law: a name is accepted exactly when, after one leading `*.` is dropped, it is
/// non-empty, at most 253 bytes long, holds a dot, and each dot-separated label
/// is 1 to 63 bytes of ASCII letters, digits and `-` that neither starts nor ends
/// with `-`. Nothing else is asked of a label's first character.
pub proof fn law_valid_character_classes(d: Seq<char>)
    ensures
        spec_valid(d) <==> ({
            let s = strip_wildcard(d);
            let labels = split_on(s, '.');
            &&& s.len() > 0
            &&& encode_utf8(s).len() <= 253
            &&& s.contains('.')
            &&& forall|i: int|
                0 <= i < labels.len() ==> {
                    let l = #[trigger] labels[i];
                    &&& l.len() > 0
                    &&& encode_utf8(l).len() <= 63
                    &&& l[0] != '-'
                    &&& l[l.len() - 1] != '-'
                    &&& forall|k: int|
                        0 <= k < l.len() ==> ('a' <= #[trigger] l[k] <= 'z' || 'A' <= l[k] <= 'Z'
                            || '0' <= l[k] <= '9' || l[k] == '-')
                }
        }),
{
    let s = strip_wildcard(d);
    let labels = split_on(s, '.');
    assert forall|i: int| 0 <= i < labels.len() implies (label_ok(#[trigger] labels[i]) <==> {
        let l = labels[i];
        &&& l.len() > 0
        &&& encode_utf8(l).len() <= 63
        &&& l[0] != '-'
        &&& l[l.len() - 1] != '-'
        &&& forall|k: int|
            0 <= k < l.len() ==> ('a' <= #[trigger] l[k] <= 'z' || 'A' <= l[k] <= 'Z' || '0' <= l[k]
                <= '9' || l[k] == '-')
    }) by {
        let l = labels[i];
        if l.len() > 0 {
            assert(l.last() == l[l.len() - 1]);
        }
        assert((forall|k: int| 0 <= k < l.len() ==> is_label_char(#[trigger] l[k])) <==> (forall|k: int|
            0 <= k < l.len() ==> ('a' <= #[trigger] l[k] <= 'z' || 'A' <= l[k] <= 'Z' || '0' <= l[k]
                <= '9' || l[k] == '-')));
    }
}

/// Law: a wildcard name is accepted exactly when the name it covers is.
pub proof fn law_valid_wildcard(name: Seq<char>)
    requires
        !(name.len() >= 2 && name[0] == '*' && name[1] == '.'),
    ensures
        spec_valid(seq!['*', '.'] + name) == spec_valid(name),
{
    assert((seq!['*', '.'] + name).skip(2) =~= name);
}

} // verus!
