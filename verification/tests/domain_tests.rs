use rustacme::{valid, zone_info};

fn zi(d: &str) -> (String, String) {
    zone_info(d)
}

#[test]
fn zone_info_subdomain() {
    assert_eq!(zi("mail.tigrisla.com"), ("tigrisla.com".to_string(), "mail".to_string()));
}

#[test]
fn zone_info_apex() {
    assert_eq!(zi("tigrisla.com"), ("tigrisla.com".to_string(), String::new()));
}

#[test]
fn zone_info_wildcard_apex() {
    assert_eq!(zi("*.tigrisla.com"), ("tigrisla.com".to_string(), String::new()));
}

#[test]
fn zone_info_cn_subdomain() {
    assert_eq!(zi("cdma.tigrisla.cn"), ("tigrisla.cn".to_string(), "cdma".to_string()));
}

#[test]
fn zone_info_two_level_apex() {
    assert_eq!(zi("tigrisla.com.cn"), ("tigrisla.com.cn".to_string(), String::new()));
}

#[test]
fn zone_info_two_level_deep() {
    assert_eq!(zi("a.b.example.org.hk"), ("example.org.hk".to_string(), "a.b".to_string()));
    assert_eq!(zi("www.example.ac.cn"), ("example.ac.cn".to_string(), "www".to_string()));
}

#[test]
fn zone_info_not_two_level() {
    // `ac.hk` is not in the table, so only two labels form the zone.
    assert_eq!(zi("x.example.ac.hk"), ("ac.hk".to_string(), "x.example".to_string()));
    assert_eq!(zi("com.cn"), ("com.cn".to_string(), String::new()));
}

#[test]
fn zone_info_single_label_and_empty() {
    assert_eq!(zi("localhost"), ("localhost".to_string(), String::new()));
    assert_eq!(zi(""), (String::new(), String::new()));
    assert_eq!(zi("*."), (String::new(), String::new()));
}

#[test]
fn zone_info_deep_wildcard() {
    assert_eq!(zi("*.a.b.example.com"), ("example.com".to_string(), "a.b".to_string()));
}

#[test]
fn zone_info_empty_labels() {
    assert_eq!(zi(".a.com"), ("a.com".to_string(), String::new()));
    assert_eq!(zi("a..com"), (".com".to_string(), "a".to_string()));
}

#[test]
fn zone_info_reassembles_law() {
    for name in ["mail.tigrisla.com", "a.b.c.example.com.cn", ".a.com", "x.y", "q", "*.deep.er.example.net"] {
        let stripped = name.strip_prefix("*.").unwrap_or(name);
        let (zone, prefix) = zi(name);
        if prefix.is_empty() && zone == stripped {
            continue;
        }
        assert_eq!(format!("{}.{}", prefix, zone), stripped);
    }
}

#[test]
fn zone_info_wildcard_law() {
    for name in ["mail.tigrisla.com", "tigrisla.com.cn", "x", "a.b.c.d"] {
        assert_eq!(zi(&format!("*.{}", name)), zi(name));
    }
}

#[test]
fn valid_accepts_plain_names() {
    assert!(valid("example.com"));
    assert!(valid("*.example.com"));
    assert!(valid("a-b.example-1.com"));
    assert!(valid("xn--fiqs8s.cn"));
}

#[test]
fn valid_rejects_bad_names() {
    assert!(!valid(""));
    assert!(!valid("*."));
    assert!(!valid("localhost"));
    assert!(!valid("-a.com"));
    assert!(!valid("a-.com"));
    assert!(!valid("a..com"));
    assert!(!valid("a.com."));
    assert!(!valid("a_b.com"));
    assert!(!valid("测试.com"));
    assert!(!valid("*.*.example.com"));
    assert!(!valid("a b.com"));
}

#[test]
fn valid_length_limits() {
    let label63 = "a".repeat(63);
    let label64 = "a".repeat(64);
    assert!(valid(&format!("{}.com", label63)));
    assert!(!valid(&format!("{}.com", label64)));
    // 4 labels of 63 and the dots: 255 bytes; 3 labels of 63 + "a.bc": 196.
    let long = format!("{}.{}.{}.{}", label63, label63, label63, label63);
    assert!(!valid(&long));
    let name253 = format!("{}.{}.{}.{}", label63, label63, label63, "a".repeat(61));
    assert_eq!(name253.len(), 253);
    assert!(valid(&name253));
    let name254 = format!("{}.{}.{}.{}", label63, label63, label63, "a".repeat(62));
    assert!(!valid(&name254));
    // The wildcard prefix does not count.
    assert!(valid(&format!("*.{}", name253)));
}

#[test]
fn valid_wildcard_law() {
    for name in ["example.com", "-x.com", "a", "x.y.z"] {
        assert_eq!(valid(&format!("*.{}", name)), valid(name));
    }
}

#[test]
fn zone_is_its_own_zone_law() {
    for name in ["mail.tigrisla.com", "*.a.b.example.com.cn", "tigrisla.com", "x.y.example.ac.cn", "a.ac.hk"] {
        assert!(valid(name));
        let (z, _) = zi(name);
        assert_eq!(zi(&z), (z.clone(), String::new()));
    }
}
