use vstd::prelude::*;

use crate::dns::TxtRecord;
use crate::domain::{law_zone_info_reassembles, spec_zone_info, strip_wildcard, zone_info};
use crate::text::{chars_of, same_chars};

verus! {

/// The host name of the TXT record for a DNS-01 challenge, given the host prefix
/// of the challenged name: `_acme-challenge`, followed by `.` and the prefix
/// where there is one.
pub open spec fn spec_challenge_hostname(prefix: Seq<char>) -> Seq<char> {
    if prefix.len() == 0 {
        "_acme-challenge"@
    } else {
        "_acme-challenge."@ + prefix
    }
}

/// The host name of the TXT record for a DNS-01 challenge (see
/// `spec_challenge_hostname`).
pub fn challenge_hostname(prefix: &str) -> (r: String)
    ensures
        r@ == spec_challenge_hostname(prefix@),
{
    if prefix.is_empty() {
        "_acme-challenge".to_owned()
    } else {
        let mut r = "_acme-challenge.".to_owned();
        r.append(prefix);
        r
    }
}

/// The TXT record that answers the DNS-01 challenge for `domain` with the
/// challenge value `value`: in the zone of `domain`, at the challenge host name.
pub fn challenge_record(domain: &str, value: &str) -> (r: TxtRecord)
    ensures
        r.zone@ == spec_zone_info(domain@).0,
        r.hostname@ == spec_challenge_hostname(spec_zone_info(domain@).1),
        r.value@ == value@,
{
    let (zone, prefix) = zone_info(domain);
    let hostname = challenge_hostname(prefix.as_str());
    TxtRecord { zone, hostname, value: value.to_owned() }
}

/// Law: the challenge record's host name within its zone is the name under which
/// DNS-01 looks: `_acme-challenge.` followed by the challenged name (without a
/// leading `*.`), for every name that does not start with a dot.
pub proof fn law_challenge_record_name(domain: Seq<char>)
    requires
        !(strip_wildcard(domain).len() > 0 && strip_wildcard(domain)[0] == '.'),
    ensures
        spec_challenge_hostname(spec_zone_info(domain).1).push('.') + spec_zone_info(domain).0
            == "_acme-challenge."@ + strip_wildcard(domain),
{
    let (zone, prefix) = spec_zone_info(domain);
    let s = strip_wildcard(domain);
    law_zone_info_reassembles(domain);
    let h = "_acme-challenge."@;
    assert("_acme-challenge"@.push('.') == h) by {
        reveal_strlit("_acme-challenge");
        reveal_strlit("_acme-challenge.");
    }
    if prefix.len() == 0 {
        if prefix.push('.') + zone == s {
            assert(s[0] == '.');
        }
        assert(spec_challenge_hostname(prefix).push('.') + zone =~= h + s);
    } else {
        assert(h + prefix + seq!['.'] + zone =~= h + (prefix.push('.') + zone));
        assert(spec_challenge_hostname(prefix).push('.') + zone =~= h + prefix + seq!['.'] + zone);
    }
}

/// The kinds of challenge that an ACME authorization offers.
#[derive(Debug, PartialEq, Eq, Structural, Clone, Copy)]
pub enum ChallengeKind {
    Http01,
    Dns01,
    TlsAlpn01,
}

/// The position of the first DNS-01 challenge among `kinds`, if any.
pub fn find_dns01(kinds: &Vec<ChallengeKind>) -> (r: Option<usize>)
    ensures
        r matches Some(i) ==> i < kinds.len() && kinds@[i as int] == ChallengeKind::Dns01 && forall|
            k: int,
        | 0 <= k < i ==> kinds@[k] != ChallengeKind::Dns01,
        r is None ==> forall|k: int| 0 <= k < kinds.len() ==> kinds@[k] != ChallengeKind::Dns01,
{
    let mut i: usize = 0;
    while i < kinds.len()
        invariant
            0 <= i <= kinds.len(),
            forall|k: int| 0 <= k < i ==> kinds@[k] != ChallengeKind::Dns01,
        decreases kinds.len() - i,
    {
        if kinds[i] == ChallengeKind::Dns01 {
            return Some(i);
        }
        i = i + 1;
    }
    None
}

/// The three texts of a TXT record.
pub open spec fn record_view(r: TxtRecord) -> (Seq<char>, Seq<char>, Seq<char>) {
    (r.zone@, r.hostname@, r.value@)
}

/// The views of a sequence of records.
pub open spec fn record_views(v: Seq<TxtRecord>) -> Seq<(Seq<char>, Seq<char>, Seq<char>)> {
    Seq::new(v.len(), |i: int| record_view(v[i]))
}

/// Each record once, at the place of its first occurrence.
pub open spec fn dedup(s: Seq<(Seq<char>, Seq<char>, Seq<char>)>) -> Seq<
    (Seq<char>, Seq<char>, Seq<char>),
>
    decreases s.len(),
{
    if s.len() == 0 {
        seq![]
    } else {
        let prev = dedup(s.drop_last());
        if prev.contains(s.last()) {
            prev
        } else {
            prev.push(s.last())
        }
    }
}

/// Whether two records have the same zone, host name and value.
pub fn same_record(a: &TxtRecord, b: &TxtRecord) -> (r: bool)
    ensures
        r == (record_view(*a) == record_view(*b)),
{
    same_chars(&chars_of(a.zone.as_str()), &chars_of(b.zone.as_str())) && same_chars(
        &chars_of(a.hostname.as_str()),
        &chars_of(b.hostname.as_str()),
    ) && same_chars(&chars_of(a.value.as_str()), &chars_of(b.value.as_str()))
}

fn contains_record(v: &Vec<TxtRecord>, rec: &TxtRecord) -> (r: bool)
    ensures
        r == record_views(v@).contains(record_view(*rec)),
{
    let mut i: usize = 0;
    while i < v.len()
        invariant
            0 <= i <= v.len(),
            forall|k: int| 0 <= k < i ==> record_view(#[trigger] v@[k]) != record_view(*rec),
        decreases v.len() - i,
    {
        if same_record(&v[i], rec) {
            assert(record_views(v@)[i as int] == record_view(*rec));
            return true;
        }
        i = i + 1;
    }
    assert(!record_views(v@).contains(record_view(*rec))) by {
        if record_views(v@).contains(record_view(*rec)) {
            let k = choose|k: int|
                0 <= k < record_views(v@).len() && record_views(v@)[k] == record_view(*rec);
            assert(record_view(v@[k]) == record_view(*rec));
        }
    }
    false
}

/// A copy of a record.
pub fn copy_record(r: &TxtRecord) -> (c: TxtRecord)
    ensures
        record_view(c) == record_view(*r),
{
    TxtRecord { zone: r.zone.clone(), hostname: r.hostname.clone(), value: r.value.clone() }
}

/// The records with repeats removed, each kept where it first occurs (see `dedup`).
pub fn dedup_records(records: &Vec<TxtRecord>) -> (r: Vec<TxtRecord>)
    ensures
        record_views(r@) == dedup(record_views(records@)),
{
    let ghost all = record_views(records@);
    let mut out: Vec<TxtRecord> = Vec::new();
    let mut i: usize = 0;
    assert(record_views(out@) =~= dedup(all.take(0)));
    while i < records.len()
        invariant
            all == record_views(records@),
            0 <= i <= records.len(),
            record_views(out@) == dedup(all.take(i as int)),
        decreases records.len() - i,
    {
        let rec = copy_record(&records[i]);
        proof {
            let t = all.take(i + 1);
            assert(t.drop_last() =~= all.take(i as int));
            assert(t.last() == all[i as int]);
        }
        if !contains_record(&out, &rec) {
            let ghost o = out@;
            out.push(rec);
            assert(record_views(out@) =~= record_views(o).push(record_view(rec)));
        }
        i = i + 1;
    }
    assert(all.take(records.len() as int) =~= all);
    out
}

/// Law: removing repeats keeps exactly the records that were there, each once.
pub proof fn law_dedup_keeps_each_once(s: Seq<(Seq<char>, Seq<char>, Seq<char>)>)
    ensures
        forall|x: (Seq<char>, Seq<char>, Seq<char>)| dedup(s).contains(x) <==> s.contains(x),
        forall|i: int, j: int| 0 <= i < j < dedup(s).len() ==> dedup(s)[i] != dedup(s)[j],
    decreases s.len(),
{
    if s.len() > 0 {
        let d = s.drop_last();
        law_dedup_keeps_each_once(d);
        let prev = dedup(d);
        assert forall|x: (Seq<char>, Seq<char>, Seq<char>)| dedup(s).contains(x) <==> s.contains(x) by {
            if s.contains(x) {
                let k = choose|k: int| 0 <= k < s.len() && s[k] == x;
                if k < d.len() {
                    assert(d[k] == x);
                    assert(d.contains(x));
                    assert(prev.contains(x));
                    if !prev.contains(s.last()) {
                        let m = choose|m: int| 0 <= m < prev.len() && prev[m] == x;
                        assert(dedup(s)[m] == x);
                    }
                } else {
                    if !prev.contains(s.last()) {
                        assert(dedup(s)[prev.len() as int] == x);
                    }
                }
            }
            if dedup(s).contains(x) {
                let m = choose|m: int| 0 <= m < dedup(s).len() && dedup(s)[m] == x;
                if m < prev.len() {
                    assert(prev[m] == x);
                    assert(prev.contains(x));
                    assert(d.contains(x));
                    let k = choose|k: int| 0 <= k < d.len() && d[k] == x;
                    assert(s[k] == x);
                } else {
                    assert(s[s.len() - 1] == x);
                }
            }
        }
    }
}

/// Law: removing repeats a second time changes nothing.
pub proof fn law_dedup_idempotent(s: Seq<(Seq<char>, Seq<char>, Seq<char>)>)
    ensures
        dedup(dedup(s)) == dedup(s),
{
    law_dedup_keeps_each_once(s);
    lemma_dedup_distinct(dedup(s));
}

proof fn lemma_dedup_distinct(s: Seq<(Seq<char>, Seq<char>, Seq<char>)>)
    requires
        forall|i: int, j: int| 0 <= i < j < s.len() ==> s[i] != s[j],
    ensures
        dedup(s) == s,
    decreases s.len(),
{
    if s.len() > 0 {
        let d = s.drop_last();
        lemma_dedup_distinct(d);
        assert(!d.contains(s.last())) by {
            if d.contains(s.last()) {
                let k = choose|k: int| 0 <= k < d.len() && d[k] == s.last();
                assert(s[k] == s[s.len() - 1]);
            }
        }
        assert(d.push(s.last()) =~= s);
    }
}

/// The TXT records created during one certificate order, to be removed
/// afterwards whatever the order's outcome.
pub struct CreatedRecords {
    records: Vec<TxtRecord>,
    history: Ghost<Seq<(Seq<char>, Seq<char>, Seq<char>)>>,
}

impl CreatedRecords {
    /// Every record created so far, in order of creation.
    pub closed spec fn created(self) -> Seq<(Seq<char>, Seq<char>, Seq<char>)> {
        self.history@
    }

    /// The records that a cleanup removes.
    pub closed spec fn to_clean(self) -> Seq<(Seq<char>, Seq<char>, Seq<char>)> {
        record_views(self.records@)
    }

    /// The records to clean are exactly the records created.
    pub open spec fn wf(self) -> bool {
        forall|x: (Seq<char>, Seq<char>, Seq<char>)|
            self.created().contains(x) <==> self.to_clean().contains(x)
    }

    /// No record created yet.
    pub fn new() -> (r: Self)
        ensures
            r.wf(),
            r.created() == Seq::<(Seq<char>, Seq<char>, Seq<char>)>::empty(),
            r.to_clean() == Seq::<(Seq<char>, Seq<char>, Seq<char>)>::empty(),
    {
        let r = CreatedRecords { records: Vec::new(), history: Ghost(Seq::empty()) };
        assert(r.to_clean() =~= Seq::<(Seq<char>, Seq<char>, Seq<char>)>::empty());
        r
    }

    /// Notes that `rec` was created.
    pub fn add(&mut self, rec: TxtRecord)
        requires
            old(self).wf(),
        ensures
            final(self).wf(),
            final(self).created() == old(self).created().push(record_view(rec)),
            final(self).to_clean() == old(self).to_clean().push(record_view(rec)),
    {
        let ghost v = record_view(rec);
        let ghost old_clean = record_views(self.records@);
        self.records.push(rec);
        self.history = Ghost(self.history@.push(v));
        assert(record_views(self.records@) =~= old_clean.push(v));
        assert(self.created() == old(self).created().push(v));
        assert(self.to_clean() == old_clean.push(v));
        assert(old(self).to_clean() == old_clean);
        assert forall|x: (Seq<char>, Seq<char>, Seq<char>)|
            self.created().contains(x) <==> self.to_clean().contains(x) by {
            if self.created().contains(x) && x != v {
                let k = choose|k: int| 0 <= k < self.created().len() && self.created()[k] == x;
                assert(old(self).created()[k] == x);
                assert(old(self).created().contains(x));
                let m = choose|m: int| 0 <= m < old_clean.len() && old_clean[m] == x;
                assert(self.to_clean()[m] == x);
            }
            if self.to_clean().contains(x) && x != v {
                let k = choose|k: int| 0 <= k < self.to_clean().len() && self.to_clean()[k] == x;
                assert(old_clean[k] == x);
                assert(old_clean.contains(x));
                let m = choose|m: int|
                    0 <= m < old(self).created().len() && old(self).created()[m] == x;
                assert(self.created()[m] == x);
            }
            if x == v {
                assert(self.created()[self.created().len() - 1] == v);
                assert(self.to_clean()[self.to_clean().len() - 1] == v);
            }
        }
    }

    /// Removes repeated records from those to clean (see `dedup`).
    pub fn settle(&mut self)
        requires
            old(self).wf(),
        ensures
            final(self).wf(),
            final(self).created() == old(self).created(),
            final(self).to_clean() == dedup(old(self).to_clean()),
    {
        let unique = dedup_records(&self.records);
        let ghost before = record_views(self.records@);
        proof {
            law_dedup_keeps_each_once(before);
        }
        self.records = unique;
        assert(self.to_clean() == dedup(before));
        assert forall|x: (Seq<char>, Seq<char>, Seq<char>)|
            self.created().contains(x) <==> self.to_clean().contains(x) by {
            assert(dedup(before).contains(x) <==> before.contains(x));
            assert(old(self).created().contains(x) <==> old(self).to_clean().contains(x));
        }
    }

    /// The records that a cleanup removes: every record created, each once
    /// after `settle`, and no other.
    pub fn records(&self) -> (r: &Vec<TxtRecord>)
        requires
            self.wf(),
        ensures
            record_views(r@) == self.to_clean(),
            forall|x: (Seq<char>, Seq<char>, Seq<char>)|
                self.created().contains(x) <==> record_views(r@).contains(x),
    {
        &self.records
    }
}

/// The state of an ACME order, as the server reports it.
#[derive(Debug, PartialEq, Eq, Structural, Clone, Copy)]
pub enum OrderState {
    Pending,
    Ready,
    Processing,
    Valid,
    Invalid,
}

/// What to do after a refresh of the order while waiting for its challenges.
#[derive(Debug, PartialEq, Eq, Structural, Clone, Copy)]
pub enum PollStep {
    /// The order is ready (or already valid): send the CSR.
    Finalize,
    /// The order is invalid: give up.
    Fail,
    /// Wait five seconds; then refresh again if `refresh_again`, else send the
    /// CSR anyway.
    Wait { refresh_again: bool },
}

/// The most refreshes of an order before the CSR is sent.
pub const MAX_ORDER_REFRESHES: u32 = 60;

/// The step after the `refreshes`-th refresh found the order in `state`.
pub open spec fn spec_poll_step(refreshes: u32, state: OrderState) -> PollStep {
    match state {
        OrderState::Ready | OrderState::Valid => PollStep::Finalize,
        OrderState::Invalid => PollStep::Fail,
        _ => PollStep::Wait { refresh_again: refreshes < MAX_ORDER_REFRESHES },
    }
}

/// The step after the `refreshes`-th refresh (counting from 1) found the order in
/// `state` (see `spec_poll_step`).
pub fn poll_step(refreshes: u32, state: OrderState) -> (r: PollStep)
    requires
        1 <= refreshes <= MAX_ORDER_REFRESHES,
    ensures
        r == spec_poll_step(refreshes, state),
{
    match state {
        OrderState::Ready | OrderState::Valid => PollStep::Finalize,
        OrderState::Invalid => PollStep::Fail,
        _ => PollStep::Wait { refresh_again: refreshes < MAX_ORDER_REFRESHES },
    }
}

/// The number of refreshes that waiting makes when the server reports the states
/// `states`, one per refresh, starting after `done` refreshes.
pub open spec fn refreshes_made(states: Seq<OrderState>, done: u32) -> nat
    decreases states.len(),
{
    if states.len() == 0 || done >= MAX_ORDER_REFRESHES {
        0
    } else {
        match spec_poll_step((done + 1) as u32, states[0]) {
            PollStep::Wait { refresh_again: true } => 1 + refreshes_made(states.drop_first(), (done + 1) as u32),
            _ => 1,
        }
    }
}

/// Law: however the server answers, waiting for an order refreshes it at most
/// `MAX_ORDER_REFRESHES` times.
pub proof fn law_poll_bounded(states: Seq<OrderState>, done: u32)
    requires
        done <= MAX_ORDER_REFRESHES,
    ensures
        done + refreshes_made(states, done) <= MAX_ORDER_REFRESHES,
    decreases states.len(),
{
    if states.len() > 0 && done < MAX_ORDER_REFRESHES {
        law_poll_bounded(states.drop_first(), (done + 1) as u32);
    }
}

} // verus!
