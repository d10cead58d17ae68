//! Receivers discovered on the local network: what this machine announces,
//! and the table of announcements heard from others.
use crate::proto::{DiscoveryAnnouncement, DiscoveryPacket};
use crate::sorting::{
    insert_by_name, lemma_sort_by_name, names_sorted, sort_by_name, upper_bound,
};
use crate::text::{push_str, str_eq, str_lt, string_of, views};
use vstd::prelude::*;

verus! {

/// How long a receiver stays listed after its last announcement.
pub const PEER_TTL_MS: u64 = 4000;

/// How often the table is pruned and reported.
pub const DISCOVERY_TICK_MS: u64 = 800;

/// A receiver as offered to the user.
#[derive(Debug)]
pub struct DiscoveredPeer {
    pub label: String,
    pub ip: String,
}

/// The announcement this machine answers discovery requests with, if any.
pub struct DiscoveryAdvertiser {
    state: Option<DiscoveryAnnouncement>,
}

/// Two announcements say the same thing.
pub open spec fn same_announcement(a: DiscoveryAnnouncement, b: DiscoveryAnnouncement) -> bool {
    &&& a.machine_name@ == b.machine_name@
    &&& a.control_port == b.control_port
    &&& views(a.addresses@) == views(b.addresses@)
}

/// A copy of an announcement.
pub fn copy_announcement(a: &DiscoveryAnnouncement) -> (copy: DiscoveryAnnouncement)
    ensures
        same_announcement(copy, *a),
{
    let mut addresses: Vec<String> = Vec::new();
    let mut i: usize = 0;
    while i < a.addresses.len()
        invariant
            i <= a.addresses@.len(),
            addresses@.len() == i,
            views(addresses@) == views(a.addresses@.take(i as int)),
        decreases a.addresses@.len() - i,
    {
        let ghost before = addresses@;
        let c = a.addresses[i].clone();
        assert(c@ == a.addresses@[i as int]@);
        addresses.push(c);
        i += 1;
        proof {
            let lhs = views(addresses@);
            let rhs = views(a.addresses@.take(i as int));
            assert(lhs.len() == rhs.len());
            assert forall|q: int| 0 <= q < lhs.len() implies lhs[q] == rhs[q] by {
                if q < i - 1 {
                    assert(lhs[q] == views(before)[q]);
                    assert(rhs[q] == views(a.addresses@.take(i - 1))[q]);
                }
            }
            assert(lhs =~= rhs);
        }
    }
    assert(a.addresses@.take(a.addresses@.len() as int) =~= a.addresses@);
    DiscoveryAnnouncement {
        machine_name: a.machine_name.clone(),
        control_port: a.control_port,
        addresses,
    }
}

impl DiscoveryAdvertiser {
    /// An advertiser with nothing to announce.
    pub fn new() -> (advertiser: Self)
        ensures
            advertiser.announcement() is None,
    {
        DiscoveryAdvertiser { state: None }
    }

    /// What the advertiser announces.
    pub closed spec fn announcement(&self) -> Option<DiscoveryAnnouncement> {
        self.state
    }

    /// Starts announcing `announcement`.
    pub fn set(&mut self, announcement: DiscoveryAnnouncement)
        ensures
            final(self).announcement() == Some(announcement),
    {
        self.state = Some(announcement);
    }

    /// Stops announcing.
    pub fn clear(&mut self)
        ensures
            final(self).announcement() is None,
    {
        self.state = None;
    }

    /// A copy of what is announced.
    pub fn current(&self) -> (current: Option<DiscoveryAnnouncement>)
        ensures
            match (current, self.announcement()) {
                (Some(c), Some(a)) => same_announcement(c, a),
                (None, None) => true,
                _ => false,
            },
    {
        match &self.state {
            Some(a) => Some(copy_announcement(a)),
            None => None,
        }
    }
}

/// A receiver heard at `ip`, last at `last_seen_ms`.
#[derive(Debug)]
pub struct PeerRecord {
    pub machine_name: String,
    pub ip: String,
    pub last_seen_ms: u64,
}

/// The key a record is filed under: machine name, `|`, address.
pub open spec fn record_key(name: Seq<char>, ip: Seq<char>) -> Seq<char> {
    name + "|"@ + ip
}

/// What a record says: machine name, address, last time heard.
pub type RecordView = (Seq<char>, Seq<char>, u64);

/// The views of records.
pub open spec fn record_views(records: Seq<PeerRecord>) -> Seq<RecordView> {
    records.map_values(|r: PeerRecord| (r.machine_name@, r.ip@, r.last_seen_ms))
}

/// No two records share a key.
pub open spec fn keys_unique(records: Seq<RecordView>) -> bool {
    forall|i: int, j: int|
        0 <= i < j < records.len() ==> record_key(records[i].0, records[i].1) != record_key(
            records[j].0,
            records[j].1,
        )
}

/// The position of the record filed under `key`, if any.
pub open spec fn key_index(records: Seq<RecordView>, key: Seq<char>) -> Option<int> {
    if exists|i: int| 0 <= i < records.len() && record_key(records[i].0, records[i].1) == key {
        Some(
            choose|i: int| 0 <= i < records.len() && record_key(records[i].0, records[i].1) == key,
        )
    } else {
        None
    }
}

/// Files `name` at `ip` as heard at `now`: the record under the same key
/// is replaced, else a new one is added.
pub open spec fn upsert(records: Seq<RecordView>, name: Seq<char>, ip: Seq<char>, now: u64) -> Seq<RecordView> {
    match key_index(records, record_key(name, ip)) {
        Some(i) => records.update(i, (name, ip, now)),
        None => records.push((name, ip, now)),
    }
}

/// Files every address of an announcement by `name`, except this
/// machine's own addresses.
pub open spec fn remember_all(
    records: Seq<RecordView>,
    name: Seq<char>,
    addresses: Seq<Seq<char>>,
    local_ips: Seq<Seq<char>>,
    now: u64,
) -> Seq<RecordView>
    decreases addresses.len(),
{
    if addresses.len() == 0 {
        records
    } else {
        let earlier = remember_all(records, name, addresses.drop_last(), local_ips, now);
        if local_ips.contains(addresses.last()) {
            earlier
        } else {
            upsert(earlier, name, addresses.last(), now)
        }
    }
}

/// A record heard within the time to live.
pub open spec fn fresh(r: RecordView, now: u64) -> bool {
    (if now >= r.2 {
        now - r.2
    } else {
        0
    }) <= PEER_TTL_MS
}

/// The label a receiver is offered under: `name (ip)`.
pub open spec fn peer_label(name: Seq<char>, ip: Seq<char>) -> Seq<char> {
    name + " ("@ + ip + ")"@
}

/// The label a discovered peer is sorted by.
pub open spec fn label_key() -> spec_fn(DiscoveredPeer) -> Seq<char> {
    |p: DiscoveredPeer| p.label@
}

/// `offered` lists the records, one peer per record in the same order.
pub open spec fn offers_of(offered: Seq<DiscoveredPeer>, records: Seq<RecordView>) -> bool {
    &&& offered.len() == records.len()
    &&& forall|i: int|
        0 <= i < records.len() ==> (#[trigger] offered[i]).label@ == peer_label(records[i].0, records[i].1)
            && offered[i].ip@ == records[i].1
}

/// The receivers heard recently, filed by machine name and address.
pub struct PeerTable {
    pub records: Vec<PeerRecord>,
}

impl PeerTable {
    /// No record shares its key with another.
    pub open spec fn wf(&self) -> bool {
        keys_unique(record_views(self.records@))
    }

    /// An empty table.
    pub fn new() -> (table: Self)
        ensures
            table.wf(),
            table.records@.len() == 0,
    {
        PeerTable { records: Vec::new() }
    }

    /// Files `name` at `ip`, heard at `now_ms`.
    fn upsert_record(&mut self, name: &str, ip: &str, now_ms: u64)
        requires
            old(self).wf(),
        ensures
            final(self).wf(),
            record_views(final(self).records@) == upsert(record_views(old(self).records@), name@, ip@, now_ms),
    {
        let ghost rv = record_views(self.records@);
        let key = key_text(name, ip);
        let mut i: usize = 0;
        while i < self.records.len()
            invariant
                i <= self.records@.len(),
                rv == record_views(self.records@),
                rv == record_views(old(self).records@),
                keys_unique(rv),
                key@ == record_key(name@, ip@),
                forall|q: int| 0 <= q < i ==> record_key(rv[q].0, rv[q].1) != key@,
            decreases self.records@.len() - i,
        {
            let existing = key_text(self.records[i].machine_name.as_str(), self.records[i].ip.as_str());
            assert(rv[i as int] == (
                self.records@[i as int].machine_name@,
                self.records@[i as int].ip@,
                self.records@[i as int].last_seen_ms,
            ));
            if str_eq(existing.as_str(), key.as_str()) {
                proof {
                    assert(record_key(rv[i as int].0, rv[i as int].1) == key@);
                    let c = choose|c: int|
                        0 <= c < rv.len() && record_key(rv[c].0, rv[c].1) == key@;
                    if c < i {
                    } else if c > i {
                        assert(record_key(rv[i as int].0, rv[i as int].1) != record_key(rv[c].0, rv[c].1));
                    }
                    assert(c == i);
                    assert(key_index(rv, key@) == Some(i as int));
                }
                let mut r = self.records.remove(i);
                r.last_seen_ms = now_ms;
                r.machine_name = string_of(name);
                r.ip = string_of(ip);
                self.records.insert(i, r);
                assert(record_views(self.records@) =~= rv.update(i as int, (name@, ip@, now_ms)));
                proof {
                    let nv = record_views(self.records@);
                    assert forall|x: int, y: int| 0 <= x < y < nv.len() implies record_key(nv[x].0, nv[x].1)
                        != record_key(nv[y].0, nv[y].1) by {
                        assert(record_key(nv[x].0, nv[x].1) == record_key(rv[x].0, rv[x].1));
                        assert(record_key(nv[y].0, nv[y].1) == record_key(rv[y].0, rv[y].1));
                    }
                }
                return;
            }
            i += 1;
        }
        self.records.push(PeerRecord { machine_name: string_of(name), ip: string_of(ip), last_seen_ms: now_ms });
        assert(record_views(self.records@) =~= rv.push((name@, ip@, now_ms)));
        assert(key_index(rv, key@) is None);
    }

    /// Files an announcement heard at `now_ms`: each of its addresses that
    /// is not one of this machine's, under the key `name|address`; an
    /// announcement by this machine itself is ignored.
    pub fn remember_announcement(
        &mut self,
        announcement: &DiscoveryAnnouncement,
        local_name: &str,
        local_ips: &Vec<String>,
        now_ms: u64,
    )
        requires
            old(self).wf(),
        ensures
            final(self).wf(),
            announcement.machine_name@ == local_name@ ==> final(self).records@ == old(self).records@,
            announcement.machine_name@ != local_name@ ==> record_views(final(self).records@) == remember_all(
                record_views(old(self).records@),
                announcement.machine_name@,
                views(announcement.addresses@),
                views(local_ips@),
                now_ms,
            ),
    {
        if str_eq(announcement.machine_name.as_str(), local_name) {
            return;
        }
        let ghost name = announcement.machine_name@;
        let ghost addrs = views(announcement.addresses@);
        let ghost locals = views(local_ips@);
        let ghost start = record_views(self.records@);
        let mut i: usize = 0;
        assert(addrs.take(0) =~= Seq::<Seq<char>>::empty());
        while i < announcement.addresses.len()
            invariant
                i <= announcement.addresses@.len(),
                addrs == views(announcement.addresses@),
                locals == views(local_ips@),
                name == announcement.machine_name@,
                self.wf(),
                record_views(self.records@) == remember_all(start, name, addrs.take(i as int), locals, now_ms),
            decreases announcement.addresses@.len() - i,
        {
            let address = &announcement.addresses[i];
            let mut local = false;
            let mut j: usize = 0;
            while j < local_ips.len()
                invariant
                    j <= local_ips@.len(),
                    locals == views(local_ips@),
                    local == exists|q: int| 0 <= q < j && #[trigger] locals[q] == address@,
                decreases local_ips@.len() - j,
            {
                assert(locals[j as int] == local_ips@[j as int]@);
                if str_eq(local_ips[j].as_str(), address.as_str()) {
                    local = true;
                }
                j += 1;
            }
            proof {
                assert(addrs.take(i + 1).drop_last() =~= addrs.take(i as int));
                assert(addrs.take(i + 1).last() == address@);
                if local {
                    let q = choose|q: int| 0 <= q < j && #[trigger] locals[q] == address@;
                    assert(locals.contains(address@));
                } else {
                    assert(!locals.contains(address@));
                }
            }
            if !local {
                self.upsert_record(announcement.machine_name.as_str(), address.as_str(), now_ms);
            }
            i += 1;
        }
        assert(addrs.take(addrs.len() as int) =~= addrs);
    }

    /// Forgets the receivers not heard for more than the time to live.
    pub fn prune(&mut self, now_ms: u64)
        requires
            old(self).wf(),
        ensures
            final(self).wf(),
            record_views(final(self).records@) == record_views(old(self).records@).filter(
                |r: RecordView| fresh(r, now_ms),
            ),
    {
        let ghost pred = |r: RecordView| fresh(r, now_ms);
        let mut old_records: Vec<PeerRecord> = Vec::new();
        std::mem::swap(&mut old_records, &mut self.records);
        let ghost olds = old_records@;
        let mut kept: Vec<PeerRecord> = Vec::new();
        for record in it: old_records
            invariant
                olds == it.seq(),
                pred == (|r: RecordView| fresh(r, now_ms)),
                record_views(kept@) == record_views(olds.take(it.index() as int)).filter(pred),
        {
            let ghost k = it.index();
            let age = if now_ms >= record.last_seen_ms {
                now_ms - record.last_seen_ms
            } else {
                0
            };
            assert(olds[k as int] == record);
            let ghost rv = (record.machine_name@, record.ip@, record.last_seen_ms);
            let ghost before = kept@;
            if age <= PEER_TTL_MS {
                kept.push(record);
            }
            proof {
                reveal_with_fuel(Seq::<_>::filter, 1);
                let t = record_views(olds.take(k + 1));
                assert(t.drop_last() =~= record_views(olds.take(k as int)));
                assert(t.last() == rv);
                if pred(rv) {
                    assert(record_views(kept@) =~= record_views(before).push(rv));
                } else {
                    assert(kept@ == before);
                }
                assert(record_views(kept@) =~= t.filter(pred));
            }
        }
        proof {
            assert(olds.take(olds.len() as int) =~= olds);
            let all = record_views(olds);
            assert forall|x: int, y: int|
                0 <= x < y < all.filter(pred).len() implies record_key(
                all.filter(pred)[x].0,
                all.filter(pred)[x].1,
            ) != record_key(all.filter(pred)[y].0, all.filter(pred)[y].1) by {
                lemma_filter_keys_unique(all, pred, x, y);
            }
        }
        self.records = kept;
    }

    /// The receivers heard, as offered to the user, sorted by label.
    pub fn snapshot(&self) -> (peers: Vec<DiscoveredPeer>)
        ensures
            names_sorted(peers@, label_key()),
            exists|offered: Seq<DiscoveredPeer>|
                offers_of(offered, record_views(self.records@)) && peers@ == #[trigger] sort_by_name(
                    offered,
                    label_key(),
                ),
    {
        let ghost rv = record_views(self.records@);
        let mut offered: Vec<DiscoveredPeer> = Vec::new();
        let mut i: usize = 0;
        while i < self.records.len()
            invariant
                i <= self.records@.len(),
                rv == record_views(self.records@),
                offers_of(offered@, rv.take(i as int)),
            decreases self.records@.len() - i,
        {
            let r = &self.records[i];
            let mut label = string_of(r.machine_name.as_str());
            push_str(&mut label, " (");
            push_str(&mut label, r.ip.as_str());
            push_str(&mut label, ")");
            offered.push(DiscoveredPeer { label, ip: string_of(r.ip.as_str()) });
            i += 1;
            assert(offers_of(offered@, rv.take(i as int))) by {
                assert forall|q: int| 0 <= q < i implies #[trigger] rv.take(i as int)[q] == rv[q] by {}
                assert forall|q: int| 0 <= q < i - 1 implies #[trigger] rv.take(i - 1)[q] == rv[q] by {}
            }
        }
        assert(rv.take(rv.len() as int) =~= rv);
        let ghost offered_seq = offered@;
        let peers = sort_peers_by_label(offered);
        proof {
            lemma_sort_by_name(offered_seq, label_key());
        }
        peers
    }
}

/// Filtering keeps keys unique.
pub proof fn lemma_filter_keys_unique(s: Seq<RecordView>, pred: spec_fn(RecordView) -> bool, a: int, b: int)
    requires
        keys_unique(s),
        0 <= a < b < s.filter(pred).len(),
    ensures
        record_key(s.filter(pred)[a].0, s.filter(pred)[a].1) != record_key(
            s.filter(pred)[b].0,
            s.filter(pred)[b].1,
        ),
    decreases s.len(),
{
    reveal_with_fuel(Seq::<_>::filter, 1);
    let init = s.drop_last();
    assert(keys_unique(init)) by {
        assert forall|i: int, j: int| 0 <= i < j < init.len() implies record_key(init[i].0, init[i].1)
            != record_key(init[j].0, init[j].1) by {
            assert(init[i] == s[i] && init[j] == s[j]);
        }
    }
    let f = s.filter(pred);
    let fi = init.filter(pred);
    if pred(s.last()) {
        assert(f == fi.push(s.last()));
        if b < fi.len() {
            lemma_filter_keys_unique(init, pred, a, b);
            assert(f[a] == fi[a] && f[b] == fi[b]);
        } else {
            let x = fi[a];
            assert(fi.contains(x));
            init.lemma_filter_contains_rev(pred, x);
            let p = choose|p: int| 0 <= p < init.len() && init[p] == x;
            assert(s[p] == x);
        }
    } else {
        assert(f == fi);
        lemma_filter_keys_unique(init, pred, a, b);
    }
}

/// Stably sorts offered receivers by label.
pub fn sort_peers_by_label(peers: Vec<DiscoveredPeer>) -> (sorted: Vec<DiscoveredPeer>)
    ensures
        sorted@ == sort_by_name(peers@, label_key()),
{
    let ghost s = peers@;
    let ghost key = label_key();
    let mut rest = peers;
    let mut out: Vec<DiscoveredPeer> = Vec::new();
    let ghost mut k: int = 0;
    assert(s.take(0) =~= Seq::<DiscoveredPeer>::empty());
    while rest.len() > 0
        invariant
            0 <= k <= s.len(),
            rest@ == s.skip(k),
            out@ == sort_by_name(s.take(k), key),
            key == label_key(),
        decreases rest@.len(),
    {
        let x = rest.remove(0);
        assert(x == s[k]);
        let ghost name = x.label@;
        let mut i: usize = 0;
        assert(out@.skip(0) =~= out@);
        while i < out.len() && !str_lt(x.label.as_str(), out[i].label.as_str())
            invariant
                i <= out@.len(),
                name == x.label@,
                key == label_key(),
                upper_bound(out@, key, name) == i + upper_bound(out@.skip(i as int), key, name),
            decreases out@.len() - i,
        {
            assert(out@.skip(i as int).drop_first() =~= out@.skip(i + 1));
            i += 1;
        }
        proof {
            if i == out@.len() {
                assert(out@.skip(i as int).len() == 0);
            }
        }
        out.insert(i, x);
        proof {
            let t = s.take(k + 1);
            assert(t.drop_last() =~= s.take(k));
            assert(t.last() == x);
            assert(out@ == insert_by_name(sort_by_name(s.take(k), key), key, x));
            k = k + 1;
            assert(rest@ =~= s.skip(k));
        }
    }
    assert(s.take(k) =~= s);
    out
}

/// The key of a record as text.
fn key_text(name: &str, ip: &str) -> (key: String)
    ensures
        key@ == record_key(name@, ip@),
{
    let mut key = string_of(name);
    push_str(&mut key, "|");
    push_str(&mut key, ip);
    key
}

/// What the discovery service does after an event.
#[derive(Debug)]
pub enum DiscoveryAction {
    /// Nothing to send or show.
    Nothing,
    /// Show these receivers.
    Publish(Vec<DiscoveredPeer>),
    /// Answer the requester with this announcement.
    Reply(DiscoveryAnnouncement),
}

/// The decisions of the discovery listener: it files what it hears and
/// answers requests with what the advertiser announces.
pub struct DiscoveryService {
    pub table: PeerTable,
    pub local_name: String,
    pub local_ips: Vec<String>,
}

impl DiscoveryService {
    /// A listener for a machine named `local_name` with addresses `local_ips`.
    pub fn new(local_name: String, local_ips: Vec<String>) -> (service: Self)
        ensures
            service.table.wf(),
            service.table.records@.len() == 0,
            service.local_name == local_name,
            service.local_ips@ == local_ips@,
    {
        DiscoveryService { table: PeerTable::new(), local_name, local_ips }
    }

    /// Handles a packet heard at `now_ms`.  An announcement is filed and the
    /// receivers are shown again; a request is answered with the current
    /// announcement, if there is one.
    pub fn on_packet(
        &mut self,
        packet: &DiscoveryPacket,
        advertised: Option<DiscoveryAnnouncement>,
        now_ms: u64,
    ) -> (action: DiscoveryAction)
        requires
            old(self).table.wf(),
        ensures
            final(self).table.wf(),
            final(self).local_name == old(self).local_name,
            final(self).local_ips@ == old(self).local_ips@,
            match *packet {
                DiscoveryPacket::Announcement(a) => {
                    &&& (a.machine_name@ == old(self).local_name@ ==> final(self).table.records@
                        == old(self).table.records@)
                    &&& (a.machine_name@ != old(self).local_name@ ==> record_views(
                        final(self).table.records@,
                    ) == remember_all(
                        record_views(old(self).table.records@),
                        a.machine_name@,
                        views(a.addresses@),
                        views(old(self).local_ips@),
                        now_ms,
                    ))
                    &&& match action {
                        DiscoveryAction::Publish(peers) => {
                            &&& names_sorted(peers@, label_key())
                            &&& exists|offered: Seq<DiscoveredPeer>|
                                offers_of(offered, record_views(final(self).table.records@))
                                    && peers@ == #[trigger] sort_by_name(offered, label_key())
                        },
                        _ => false,
                    }
                },
                DiscoveryPacket::Request { .. } => {
                    &&& final(self).table.records@ == old(self).table.records@
                    &&& match (action, advertised) {
                        (DiscoveryAction::Reply(r), Some(a)) => r == a,
                        (DiscoveryAction::Nothing, None) => true,
                        _ => false,
                    }
                },
            },
    {
        match packet {
            DiscoveryPacket::Announcement(a) => {
                self.table.remember_announcement(a, self.local_name.as_str(), &self.local_ips, now_ms);
                DiscoveryAction::Publish(self.table.snapshot())
            },
            DiscoveryPacket::Request { .. } => match advertised {
                Some(a) => DiscoveryAction::Reply(a),
                None => DiscoveryAction::Nothing,
            },
        }
    }

    /// The periodic tick at `now_ms`: forgets stale receivers and shows the
    /// rest.
    pub fn on_tick(&mut self, now_ms: u64) -> (peers: Vec<DiscoveredPeer>)
        requires
            old(self).table.wf(),
        ensures
            final(self).table.wf(),
            final(self).local_name == old(self).local_name,
            final(self).local_ips@ == old(self).local_ips@,
            record_views(final(self).table.records@) == record_views(old(self).table.records@).filter(
                |r: RecordView| fresh(r, now_ms),
            ),
            names_sorted(peers@, label_key()),
            exists|offered: Seq<DiscoveredPeer>|
                offers_of(offered, record_views(final(self).table.records@)) && peers@
                    == #[trigger] sort_by_name(offered, label_key()),
    {
        self.table.prune(now_ms);
        self.table.snapshot()
    }
}

} // verus!
