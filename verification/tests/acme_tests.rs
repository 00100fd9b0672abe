use rustacme::acme::{
    challenge_hostname, challenge_record, dedup_records, CreatedRecords, find_dns01, poll_step, ChallengeKind,
    OrderState, PollStep, MAX_ORDER_REFRESHES,
};
use rustacme::dns::TxtRecord;

fn r(z: &str, h: &str, v: &str) -> TxtRecord {
    TxtRecord { zone: z.into(), hostname: h.into(), value: v.into() }
}

fn key(t: &TxtRecord) -> (String, String, String) {
    (t.zone.clone(), t.hostname.clone(), t.value.clone())
}

#[test]
fn hostnames() {
    assert_eq!(challenge_hostname(""), "_acme-challenge");
    assert_eq!(challenge_hostname("mail"), "_acme-challenge.mail");
    assert_eq!(challenge_hostname("a.b"), "_acme-challenge.a.b");
}

#[test]
fn challenge_records() {
    let rec = challenge_record("*.tigrisla.com", "v1");
    assert_eq!(key(&rec), ("tigrisla.com".into(), "_acme-challenge".into(), "v1".into()));
    let rec = challenge_record("cdma.tigrisla.cn", "v2");
    assert_eq!(key(&rec), ("tigrisla.cn".into(), "_acme-challenge.cdma".into(), "v2".into()));
    let rec = challenge_record("www.shop.example.com.cn", "v3");
    assert_eq!(key(&rec), ("example.com.cn".into(), "_acme-challenge.www.shop".into(), "v3".into()));
}

#[test]
fn first_dns01() {
    assert_eq!(find_dns01(&vec![ChallengeKind::Http01, ChallengeKind::TlsAlpn01, ChallengeKind::Dns01, ChallengeKind::Dns01]), Some(2));
    assert_eq!(find_dns01(&vec![ChallengeKind::Http01, ChallengeKind::TlsAlpn01]), None);
    assert_eq!(find_dns01(&vec![]), None);
}

#[test]
fn dedup_keeps_first_occurrences() {
    let v = vec![r("a", "h", "1"), r("a", "h", "2"), r("a", "h", "1"), r("b", "h", "1"), r("a", "h", "2")];
    let d = dedup_records(&v);
    let keys: Vec<_> = d.iter().map(key).collect();
    assert_eq!(
        keys,
        vec![
            ("a".into(), "h".into(), "1".into()),
            ("a".into(), "h".into(), "2".into()),
            ("b".into(), "h".into(), "1".into())
        ]
    );
    // Applying it again changes nothing.
    let again: Vec<_> = dedup_records(&d).iter().map(key).collect();
    assert_eq!(again, keys);
    assert!(dedup_records(&vec![]).is_empty());
}

#[test]
fn poll_steps() {
    assert_eq!(poll_step(1, OrderState::Ready), PollStep::Finalize);
    assert_eq!(poll_step(7, OrderState::Valid), PollStep::Finalize);
    assert_eq!(poll_step(3, OrderState::Invalid), PollStep::Fail);
    assert_eq!(poll_step(1, OrderState::Pending), PollStep::Wait { refresh_again: true });
    assert_eq!(poll_step(59, OrderState::Processing), PollStep::Wait { refresh_again: true });
    assert_eq!(poll_step(60, OrderState::Pending), PollStep::Wait { refresh_again: false });
}

#[test]
fn poll_is_bounded() {
    // A server that never leaves `Pending` is refreshed exactly 60 times.
    let mut refreshes = 0u32;
    loop {
        refreshes += 1;
        match poll_step(refreshes, OrderState::Pending) {
            PollStep::Wait { refresh_again: true } => continue,
            _ => break,
        }
    }
    assert_eq!(refreshes, MAX_ORDER_REFRESHES);
}

#[test]
fn challenge_record_name_law() {
    for name in ["example.com", "*.example.com", "mail.example.com.cn", "a.b.c.example.org", "localhost"] {
        let rec = challenge_record(name, "v");
        let stripped = name.strip_prefix("*.").unwrap_or(name);
        assert_eq!(format!("{}.{}", rec.hostname, rec.zone), format!("_acme-challenge.{}", stripped));
    }
}

#[test]
fn created_records_are_all_cleaned() {
    let mut log = CreatedRecords::new();
    assert!(log.records().is_empty());
    log.add(r("a", "h", "1"));
    log.add(r("a", "h", "1"));
    log.add(r("b", "h", "2"));
    // Before settling (an order that failed midway), every creation is listed.
    assert_eq!(log.records().len(), 3);
    log.settle();
    let keys: Vec<_> = log.records().iter().map(key).collect();
    assert_eq!(keys, vec![("a".into(), "h".into(), "1".into()), ("b".into(), "h".into(), "2".into())]);
}
