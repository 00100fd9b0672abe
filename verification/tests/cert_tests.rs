use rustacme::cert::{md5_gbk, parse_domain_list};
use rustacme::Cert;

#[test]
fn md5_gbk_ascii() {
    assert_eq!(md5_gbk("abc"), "900150983cd24fb0d6963f7d28e17f72");
    assert_eq!(md5_gbk("west-domain-api-key"), "a528aee4291d38ac0f5229bc3ec76e2e");
}

#[test]
fn md5_gbk_chinese_uses_gbk_bytes() {
    // GBK bytes of the text are b2 e2 ca d4, not its UTF-8 bytes.
    assert_eq!(md5_gbk("测试"), "ff13f7f55f7154f6984d9a26d8a317f9");
}

#[test]
fn md5_gbk_shape() {
    let h = md5_gbk("");
    assert_eq!(h, "d41d8cd98f00b204e9800998ecf8427e");
    assert_eq!(h.len(), 32);
    assert!(h.chars().all(|c| c.is_ascii_hexdigit() && !c.is_ascii_uppercase()));
}

#[test]
fn domain_list_trims_and_drops_empty() {
    assert_eq!(
        parse_domain_list(" example.com , *.example.com,, \t "),
        vec!["example.com".to_string(), "*.example.com".to_string()]
    );
    assert!(parse_domain_list("").is_empty());
    assert!(parse_domain_list(" , ,").is_empty());
    assert_eq!(parse_domain_list("a.com\u{3000}"), vec!["a.com".to_string()]);
}

#[test]
fn load_needs_names_and_key() {
    assert!(Cert::load(None, Some("k")).is_none());
    assert!(Cert::load(Some(" , "), Some("k")).is_none());
    assert!(Cert::load(Some("example.com"), None).is_none());
    let c = Cert::load(Some("example.com,*.example.com"), Some("abc")).unwrap();
    assert_eq!(c.domains(), &vec!["example.com".to_string(), "*.example.com".to_string()]);
    assert_eq!(c.apikey(), "900150983cd24fb0d6963f7d28e17f72");
}

#[test]
fn cert_dir_uses_first_name() {
    let c = Cert::load(Some("*.example.com,example.com"), Some("k")).unwrap();
    assert_eq!(c.cert_dir(), "/certs/example.com");
    assert_eq!(c.chain_path(), "/certs/example.com/fullchain.pem");
    assert_eq!(c.key_path(), "/certs/example.com/privkey.pem");
    assert_eq!(c.account_path(), "/certs/example.com/account.json");
    let d = Cert::load(Some("mail.example.org"), Some("k")).unwrap();
    assert_eq!(d.cert_dir(), "/certs/mail.example.org");
}
