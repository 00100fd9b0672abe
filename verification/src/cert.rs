use vstd::prelude::*;

use crate::domain::{
    append_chars, pieces, split_chars, split_on, strip_wildcard, strip_wildcard_chars,
};
use crate::text::{chars_of, string_from_chars, trim, trimmed};
use vstd::utf8::encode_utf8;

verus! {

/// What the GBK encoder of `encoding_rs` makes of a text.
pub uninterp spec fn spec_gbk_encode(s: Seq<char>) -> Seq<u8>;

/// `encoding_rs::GBK.encode`: the GBK bytes of `s`. The contract names the
/// result; the source returns ASCII text unchanged, which is stated too.
#[verifier::external_body]
fn gbk_encode(s: &str) -> (r: Vec<u8>)
    ensures
        r@ == spec_gbk_encode(s@),
        vstd::utf8::is_ascii_chars(s@) ==> r@ == encode_utf8(s@),
{
    let (bytes, _, _) = encoding_rs::GBK.encode(s);
    bytes.into_owned()
}

/// The MD5 digest of a byte sequence.
pub uninterp spec fn spec_md5(data: Seq<u8>) -> Seq<u8>;

/// `<md5::Md5 as digest::Digest>::digest`: the 16-byte MD5 digest of `data`.
#[verifier::external_body]
fn md5_digest(data: &[u8]) -> (r: Vec<u8>)
    ensures
        r@ == spec_md5(data@),
        r@.len() == 16,
{
    <md5::Md5 as md5::Digest>::digest(data).to_vec()
}

/// The lower-case hexadecimal digit for `n` (0 to 15).
pub open spec fn hex_digit(n: u8) -> char {
    if n < 10 {
        ((n + 48) as u8) as char
    } else {
        ((n + 87) as u8) as char
    }
}

/// Two lower-case hexadecimal digits per byte, high nibble first, as the
/// `LowerHex` format of a digest writes them.
pub open spec fn hex_lower(data: Seq<u8>) -> Seq<char>
    decreases data.len(),
{
    if data.len() == 0 {
        seq![]
    } else {
        hex_lower(data.drop_last()) + seq![hex_digit(data.last() / 16), hex_digit(data.last() % 16)]
    }
}

proof fn lemma_hex_lower_len(data: Seq<u8>)
    ensures
        hex_lower(data).len() == 2 * data.len(),
    decreases data.len(),
{
    if data.len() > 0 {
        lemma_hex_lower_len(data.drop_last());
    }
}

proof fn lemma_hex_lower_digits(data: Seq<u8>)
    ensures
        forall|k: int| 0 <= k < hex_lower(data).len() ==> is_hex_lower(#[trigger] hex_lower(data)[k]),
    decreases data.len(),
{
    if data.len() > 0 {
        lemma_hex_lower_digits(data.drop_last());
        lemma_hex_lower_len(data.drop_last());
        let prev = hex_lower(data.drop_last());
        let last = data.last();
        assert forall|k: int| 0 <= k < hex_lower(data).len() implies is_hex_lower(
            #[trigger] hex_lower(data)[k],
        ) by {
            if k < prev.len() {
                assert(hex_lower(data)[k] == prev[k]);
            } else {
                assert(is_hex_lower(hex_digit(last / 16)));
                assert(is_hex_lower(hex_digit(last % 16)));
            }
        }
    }
}

/// Whether `c` is a lower-case hexadecimal digit.
pub open spec fn is_hex_lower(c: char) -> bool {
    ('0' <= c <= '9') || ('a' <= c <= 'f')
}

fn hex_char(n: u8) -> (r: char)
    requires
        n < 16,
    ensures
        r == hex_digit(n),
{
    if n < 10 {
        (n + 48) as char
    } else {
        (n + 87) as char
    }
}

/// The lower-case hexadecimal text of `data`.
pub fn to_hex_lower(data: &Vec<u8>) -> (r: Vec<char>)
    ensures
        r@ == hex_lower(data@),
{
    let mut r: Vec<char> = Vec::new();
    let mut i: usize = 0;
    while i < data.len()
        invariant
            0 <= i <= data.len(),
            r@ == hex_lower(data@.take(i as int)),
        decreases data.len() - i,
    {
        let b = data[i];
        r.push(hex_char(b / 16));
        r.push(hex_char(b % 16));
        proof {
            let t = data@.take(i + 1);
            assert(t.drop_last() =~= data@.take(i as int));
            assert(t.last() == b);
        }
        i = i + 1;
    }
    assert(data@.take(data.len() as int) =~= data@);
    r
}

/// The API key that the DNS API expects for a configured key: the MD5 digest of
/// the key's GBK encoding, in lower-case hexadecimal.
pub open spec fn spec_md5_gbk(key: Seq<char>) -> Seq<char> {
    hex_lower(spec_md5(spec_gbk_encode(key)))
}

/// The lower-case hexadecimal MD5 digest of the GBK encoding of `s`.
pub fn md5_gbk(s: &str) -> (r: String)
    ensures
        r@ == spec_md5_gbk(s@),
        r@.len() == 32,
        forall|k: int| 0 <= k < r@.len() ==> is_hex_lower(#[trigger] r@[k]),
{
    let bytes = gbk_encode(s);
    let digest = md5_digest(bytes.as_slice());
    let hex = to_hex_lower(&digest);
    proof {
        lemma_hex_lower_len(digest@);
        lemma_hex_lower_digits(digest@);
    }
    string_from_chars(&hex)
}

/// The trimmed, non-empty entries among `parts`, in order.
pub open spec fn kept_entries(parts: Seq<Seq<char>>) -> Seq<Seq<char>>
    decreases parts.len(),
{
    if parts.len() == 0 {
        seq![]
    } else {
        let prev = kept_entries(parts.drop_last());
        let t = trim(parts.last());
        if t.len() > 0 {
            prev.push(t)
        } else {
            prev
        }
    }
}

/// The names of a comma-separated list: each entry trimmed, empty entries dropped.
pub open spec fn domain_list(raw: Seq<char>) -> Seq<Seq<char>> {
    kept_entries(split_on(raw, ','))
}

/// The views of a vector of strings.
pub open spec fn string_views(v: Seq<String>) -> Seq<Seq<char>> {
    Seq::new(v.len(), |i: int| v[i]@)
}

/// The names of a comma-separated list (see `domain_list`).
pub fn parse_domain_list(raw: &str) -> (r: Vec<String>)
    ensures
        string_views(r@) == domain_list(raw@),
{
    let chars = chars_of(raw);
    let parts = split_chars(&chars, ',');
    let ghost p = pieces(parts@);
    let mut r: Vec<String> = Vec::new();
    let mut i: usize = 0;
    assert(p.take(0) =~= Seq::<Seq<char>>::empty());
    assert(string_views(r@) =~= Seq::<Seq<char>>::empty());
    while i < parts.len()
        invariant
            0 <= i <= parts.len(),
            p == pieces(parts@),
            string_views(r@) == kept_entries(p.take(i as int)),
        decreases parts.len() - i,
    {
        let t = trimmed(&parts[i]);
        let ghost before = r@;
        proof {
            let q = p.take(i + 1);
            assert(q.drop_last() =~= p.take(i as int));
            assert(q.last() == parts@[i as int]@);
        }
        if t.len() > 0 {
            r.push(string_from_chars(&t));
            assert(string_views(r@) =~= string_views(before).push(t@));
        }
        i = i + 1;
    }
    assert(p.take(parts.len() as int) =~= p);
    r
}

/// A group of names that share one certificate, with the DNS API key that manages
/// their zones. The list of names is never empty.
pub struct Cert {
    domains: Vec<String>,
    apikey: String,
}

impl Cert {
    #[verifier::type_invariant]
    spec fn has_names(self) -> bool {
        self.domains.len() > 0
    }

    /// The names of the certificate, first one first.
    pub closed spec fn domain_names(self) -> Seq<Seq<char>> {
        string_views(self.domains@)
    }

    /// The key sent to the DNS API (already digested, see `md5_gbk`).
    pub closed spec fn api_key(self) -> Seq<char> {
        self.apikey@
    }

    /// The certificate group made of a configured name list and API key: `None`
    /// where the list is missing or holds no name, or the key is missing.
    pub fn load(domains_var: Option<&str>, key_var: Option<&str>) -> (r: Option<Cert>)
        ensures
            r is Some <==> (domains_var matches Some(d) && domain_list(d@).len() > 0
                && key_var is Some),
            r matches Some(c) ==> (domains_var matches Some(d) && c.domain_names() == domain_list(d@)
                && c.domain_names().len() > 0),
            r matches Some(c) ==> (key_var matches Some(k) && c.api_key() == spec_md5_gbk(k@)),
    {
        let raw = match domains_var {
            Some(d) => d,
            None => return None,
        };
        let domains = parse_domain_list(raw);
        if domains.len() == 0 {
            return None;
        }
        let key = match key_var {
            Some(k) => k,
            None => return None,
        };
        Some(Cert { apikey: md5_gbk(key), domains })
    }

    /// The names of the certificate.
    pub fn domains(&self) -> (r: &Vec<String>)
        ensures
            string_views(r@) == self.domain_names(),
            r.len() > 0,
    {
        proof {
            use_type_invariant(self);
        }
        &self.domains
    }

    /// The key sent to the DNS API.
    pub fn apikey(&self) -> (r: &str)
        ensures
            r@ == self.api_key(),
    {
        self.apikey.as_str()
    }

    /// The directory of the certificate's files: `/certs/` and the first name,
    /// without a leading `*.`.
    pub fn cert_dir(&self) -> (r: String)
        ensures
            r@ == cert_dir_of(self.domain_names()[0]),
    {
        proof {
            use_type_invariant(self);
        }
        let first = chars_of(self.domains[0].as_str());
        let name = strip_wildcard_chars(&first);
        let mut r = chars_of("/certs/");
        append_chars(&mut r, &name);
        string_from_chars(&r)
    }

    /// The path of the stored certificate chain.
    pub fn chain_path(&self) -> (r: String)
        ensures
            r@ == cert_dir_of(self.domain_names()[0]) + "/fullchain.pem"@,
    {
        let dir = self.cert_dir();
        let mut r = chars_of(dir.as_str());
        let tail = chars_of("/fullchain.pem");
        append_chars(&mut r, &tail);
        string_from_chars(&r)
    }

    /// The path of the stored ACME account credentials.
    pub fn account_path(&self) -> (r: String)
        ensures
            r@ == cert_dir_of(self.domain_names()[0]) + "/account.json"@,
    {
        let dir = self.cert_dir();
        let mut r = chars_of(dir.as_str());
        let tail = chars_of("/account.json");
        append_chars(&mut r, &tail);
        string_from_chars(&r)
    }

    /// The path of the stored private key.
    pub fn key_path(&self) -> (r: String)
        ensures
            r@ == cert_dir_of(self.domain_names()[0]) + "/privkey.pem"@,
    {
        let dir = self.cert_dir();
        let mut r = chars_of(dir.as_str());
        let tail = chars_of("/privkey.pem");
        append_chars(&mut r, &tail);
        string_from_chars(&r)
    }
}

/// The directory under which the certificate for a first name `name` is stored.
pub open spec fn cert_dir_of(name: Seq<char>) -> Seq<char> {
    "/certs/"@ + strip_wildcard(name)
}

} // verus!
