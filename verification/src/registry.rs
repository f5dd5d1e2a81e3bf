//! The peer presence table: one record per address, refreshed by each
//! heartbeat, purged after a timeout, and read through snapshots. The
//! table is exposed only through these operations; the mutual-exclusion
//! wrapper around it lives with the I/O shell, which holds each call in
//! a single critical section.

use vstd::prelude::*;

use crate::addr::IpAddress;
use crate::bytes::copy_bytes;

verus! {

/// One known peer: its address, its last announced nickname, and the
/// time of its last heartbeat in seconds.
pub struct PeerRecord {
    pub address: IpAddress,
    pub nickname: Vec<u8>,
    pub last_seen: u64,
}

/// True when no two records of `s` share an address.
pub open spec fn wf_seq(s: Seq<PeerRecord>) -> bool {
    forall|i: int, j: int| 0 <= i < j < s.len() ==> s[i].address != s[j].address
}

/// True when some record of `s` carries address `a`.
pub open spec fn seq_has_addr(s: Seq<PeerRecord>, a: IpAddress) -> bool {
    exists|i: int| 0 <= i < s.len() && (#[trigger] s[i]).address == a
}

/// Index of a record of `s` carrying address `a`.
pub open spec fn idx_of_addr(s: Seq<PeerRecord>, a: IpAddress) -> int {
    choose|i: int| 0 <= i < s.len() && (#[trigger] s[i]).address == a
}

/// The table a record sequence denotes: each address maps to the
/// nickname and heartbeat time of its record.
pub open spec fn seq_to_model(s: Seq<PeerRecord>) -> Map<IpAddress, (Seq<u8>, u64)> {
    Map::new(
        |a: IpAddress| seq_has_addr(s, a),
        |a: IpAddress| (s[idx_of_addr(s, a)].nickname@, s[idx_of_addr(s, a)].last_seen),
    )
}

/// True when a heartbeat seen at `last_seen` is still within `timeout`
/// seconds at time `now`.
pub open spec fn fresh_at(last_seen: u64, now: u64, timeout: u64) -> bool {
    last_seen + timeout > now
}

/// The table after a purge at `now` with `timeout`: exactly the fresh
/// records, each unchanged.
pub open spec fn purge_model(
    m: Map<IpAddress, (Seq<u8>, u64)>,
    now: u64,
    timeout: u64,
) -> Map<IpAddress, (Seq<u8>, u64)> {
    Map::new(
        |a: IpAddress| m.dom().contains(a) && fresh_at(m[a].1, now, timeout),
        |a: IpAddress| m[a],
    )
}

proof fn lemma_wf_unique(s: Seq<PeerRecord>, i: int, j: int)
    requires
        wf_seq(s),
        0 <= i < s.len(),
        0 <= j < s.len(),
        s[i].address == s[j].address,
    ensures
        i == j,
{
    if i < j {
        assert(s[i].address != s[j].address);
    }
    if j < i {
        assert(s[j].address != s[i].address);
    }
}

/// Each record of a well-formed sequence is the one its address maps
/// to.
proof fn lemma_model_value(s: Seq<PeerRecord>, k: int)
    requires
        wf_seq(s),
        0 <= k < s.len(),
    ensures
        seq_to_model(s).dom().contains(s[k].address),
        seq_to_model(s)[s[k].address] == (s[k].nickname@, s[k].last_seen),
{
    let a = s[k].address;
    assert(seq_has_addr(s, a));
    let m = idx_of_addr(s, a);
    assert(0 <= m < s.len() && s[m].address == a);
    lemma_wf_unique(s, m, k);
}

/// Appending a record with a new address inserts it into the model.
proof fn lemma_model_push(s: Seq<PeerRecord>, r: PeerRecord)
    requires
        wf_seq(s),
        !seq_has_addr(s, r.address),
    ensures
        wf_seq(s.push(r)),
        seq_to_model(s.push(r)) == seq_to_model(s).insert(r.address, (r.nickname@, r.last_seen)),
{
    let s2 = s.push(r);
    assert forall|i: int, j: int| 0 <= i < j < s2.len() implies s2[i].address != s2[j].address by {
        if j == s.len() {
            if s2[i].address == r.address {
                assert(s[i].address == r.address);
                assert(seq_has_addr(s, r.address));
            }
        }
    }
    let m1 = seq_to_model(s2);
    let m2 = seq_to_model(s).insert(r.address, (r.nickname@, r.last_seen));
    assert forall|a: IpAddress| m1.dom().contains(a) implies m2.dom().contains(a) by {
        let k = choose|i: int| 0 <= i < s2.len() && (#[trigger] s2[i]).address == a;
        if k < s.len() {
            assert(s[k].address == a);
            assert(seq_has_addr(s, a));
        }
    }
    assert forall|a: IpAddress| m2.dom().contains(a) implies m1.dom().contains(a) by {
        if a == r.address {
            assert(s2[s.len() as int].address == a);
            assert(seq_has_addr(s2, a));
        } else {
            let k = idx_of_addr(s, a);
            assert(0 <= k < s.len() && s[k].address == a);
            assert(s2[k].address == a);
            assert(seq_has_addr(s2, a));
        }
    }
    assert forall|a: IpAddress| m1.dom().contains(a) implies m1[a] == m2[a] by {
        if a == r.address {
            lemma_model_value(s2, s.len() as int);
        } else {
            let k = choose|i: int| 0 <= i < s2.len() && (#[trigger] s2[i]).address == a;
            assert(k < s.len());
            lemma_model_value(s2, k);
            assert(s[k].address == a);
            assert(seq_has_addr(s, a));
            lemma_model_value(s, k);
        }
    }
    assert(m1 =~= m2);
}

/// Removing the record at index `i` removes its address from the
/// model.
proof fn lemma_model_remove(s: Seq<PeerRecord>, i: int)
    requires
        wf_seq(s),
        0 <= i < s.len(),
    ensures
        wf_seq(s.remove(i)),
        seq_to_model(s.remove(i)) == seq_to_model(s).remove(s[i].address),
{
    let s2 = s.remove(i);
    s.remove_ensures(i);
    let a0 = s[i].address;
    assert forall|p: int, q: int| 0 <= p < q < s2.len() implies s2[p].address != s2[q].address by {
        let p2: int = if p < i { p } else { p + 1 };
        let q2: int = if q < i { q } else { q + 1 };
        assert(s2[p] == s[p2]);
        assert(s2[q] == s[q2]);
    }
    let m1 = seq_to_model(s2);
    let m2 = seq_to_model(s).remove(a0);
    assert forall|a: IpAddress| m1.dom().contains(a) implies m2.dom().contains(a) && m1[a]
        == m2[a] by {
        let k = choose|p: int| 0 <= p < s2.len() && (#[trigger] s2[p]).address == a;
        let k2: int = if k < i { k } else { k + 1 };
        assert(s2[k] == s[k2]);
        assert(s[k2].address == a);
        lemma_wf_unique_ne(s, k2, i);
        assert(seq_has_addr(s, a));
        lemma_model_value(s, k2);
        lemma_model_value(s2, k);
    }
    assert forall|a: IpAddress| m2.dom().contains(a) implies m1.dom().contains(a) by {
        let k = choose|p: int| 0 <= p < s.len() && (#[trigger] s[p]).address == a;
        assert(s[k].address == a);
        if k == i {
            assert(a == a0);
        } else {
            let k2: int = if k < i { k } else { k - 1 };
            assert(s2[k2] == s[k]);
            assert(seq_has_addr(s2, a));
        }
    }
    assert(m1 =~= m2);
}

proof fn lemma_wf_unique_ne(s: Seq<PeerRecord>, i: int, j: int)
    requires
        wf_seq(s),
        0 <= i < s.len(),
        0 <= j < s.len(),
        i != j,
    ensures
        s[i].address != s[j].address,
{
    if s[i].address == s[j].address {
        lemma_wf_unique(s, i, j);
    }
}

/// The peer presence table.
pub struct PeerRegistry {
    records: Vec<PeerRecord>,
}

impl View for PeerRegistry {
    type V = Map<IpAddress, (Seq<u8>, u64)>;

    closed spec fn view(&self) -> Map<IpAddress, (Seq<u8>, u64)> {
        seq_to_model(self.records@)
    }
}

impl PeerRegistry {
    /// True when the table holds at most one record per address.
    pub closed spec fn wf(self) -> bool {
        wf_seq(self.records@)
    }

    /// An empty table.
    pub fn new() -> (r: PeerRegistry)
        ensures
            r.wf(),
            r@ == Map::<IpAddress, (Seq<u8>, u64)>::empty(),
    {
        let r = PeerRegistry { records: Vec::new() };
        proof {
            assert(r@ =~= Map::<IpAddress, (Seq<u8>, u64)>::empty());
        }
        r
    }

    fn find_addr(&self, address: IpAddress) -> (r: Option<usize>)
        requires
            self.wf(),
        ensures
            match r {
                Some(i) => i < self.records@.len() && self.records@[i as int].address == address,
                None => !seq_has_addr(self.records@, address),
            },
    {
        let n = self.records.len();
        let mut i: usize = 0;
        while i < n
            invariant
                n == self.records@.len(),
                i <= n,
                forall|j: int| 0 <= j < i ==> (#[trigger] self.records@[j]).address != address,
            decreases n - i,
        {
            if self.records[i].address == address {
                return Some(i);
            }
            i = i + 1;
        }
        proof {
            if seq_has_addr(self.records@, address) {
                let k = choose|j: int|
                    0 <= j < self.records@.len() && (#[trigger] self.records@[j]).address
                        == address;
                assert(self.records@[k].address != address);
            }
        }
        None
    }

    /// Sets or refreshes the record for `address`: its nickname and
    /// heartbeat time become the given values, a missing record is
    /// created, and no other address changes. Repeated heartbeats from
    /// one address therefore never create a duplicate entry.
    pub fn upsert(&mut self, address: IpAddress, nickname: Vec<u8>, now: u64)
        requires
            old(self).wf(),
        ensures
            final(self).wf(),
            final(self)@ == old(self)@.insert(address, (nickname@, now)),
    {
        let ghost s0 = self.records@;
        let rec = PeerRecord { address, nickname, last_seen: now };
        match self.find_addr(address) {
            Some(i) => {
                proof {
                    lemma_model_remove(s0, i as int);
                }
                self.records.remove(i);
                proof {
                    let s1 = s0.remove(i as int);
                    if seq_has_addr(s1, address) {
                        let k = choose|p: int|
                            0 <= p < s1.len() && (#[trigger] s1[p]).address == address;
                        s0.remove_ensures(i as int);
                        let k2: int = if k < i { k } else { k + 1 };
                        assert(s0[k2].address == address);
                        lemma_wf_unique(s0, k2, i as int);
                        assert(false);
                    }
                    lemma_model_push(s1, rec);
                }
                self.records.push(rec);
                proof {
                    assert(seq_to_model(s0).remove(address).insert(address, (rec.nickname@, now))
                        =~= seq_to_model(s0).insert(address, (rec.nickname@, now)));
                }
            },
            None => {
                proof {
                    lemma_model_push(s0, rec);
                }
                self.records.push(rec);
            },
        }
    }

    /// Removes every record whose last heartbeat is `timeout` seconds
    /// or more in the past at time `now`; every fresher record stays,
    /// unchanged.
    pub fn purge(&mut self, now: u64, timeout: u64)
        requires
            old(self).wf(),
        ensures
            final(self).wf(),
            final(self)@ == purge_model(old(self)@, now, timeout),
    {
        let ghost s0 = self.records@;
        let mut kept: Vec<PeerRecord> = Vec::new();
        proof {
            assert(purge_model(seq_to_model(s0), now, timeout) =~= purge_model(
                seq_to_model(self.records@),
                now,
                timeout,
            ).union_prefer_right(seq_to_model(kept@)));
        }
        loop
            invariant
                wf_seq(self.records@),
                wf_seq(kept@),
                forall|a: IpAddress| #[trigger]
                    seq_has_addr(kept@, a) ==> !seq_has_addr(self.records@, a),
                purge_model(seq_to_model(s0), now, timeout) == purge_model(
                    seq_to_model(self.records@),
                    now,
                    timeout,
                ).union_prefer_right(seq_to_model(kept@)),
            ensures
                self.records@.len() == 0,
                wf_seq(kept@),
                purge_model(seq_to_model(s0), now, timeout) == purge_model(
                    seq_to_model(self.records@),
                    now,
                    timeout,
                ).union_prefer_right(seq_to_model(kept@)),
            decreases self.records@.len(),
        {
            let ghost prev = self.records@;
            let ghost kept_before = kept@;
            let r = match self.records.pop() {
                Some(r) => r,
                None => {
                    break ;
                },
            };
            proof {
                assert(prev =~= prev.drop_last().push(prev.last()));
                assert(forall|j: int|
                    0 <= j < prev.drop_last().len() ==> prev.drop_last()[j] == prev[j]);
                if seq_has_addr(prev.drop_last(), r.address) {
                    let k = choose|p: int|
                        0 <= p < prev.drop_last().len() && (#[trigger] prev.drop_last()[p]).address
                            == r.address;
                    lemma_wf_unique(prev, k, prev.len() - 1);
                }
                assert(!seq_has_addr(prev.drop_last(), r.address));
                lemma_model_push(prev.drop_last(), r);
            }
            let keep = if r.last_seen > now {
                true
            } else {
                timeout > now - r.last_seen
            };
            if keep {
                proof {
                    if seq_has_addr(kept@, r.address) {
                        assert(!seq_has_addr(prev, r.address));
                        assert(prev[prev.len() - 1].address == r.address);
                        assert(seq_has_addr(prev, r.address));
                    }
                    lemma_model_push(kept@, r);
                }
                kept.push(r);
                proof {
                    assert(purge_model(seq_to_model(s0), now, timeout) =~= purge_model(
                        seq_to_model(self.records@),
                        now,
                        timeout,
                    ).union_prefer_right(seq_to_model(kept@)));
                }
            } else {
                proof {
                    assert(purge_model(seq_to_model(s0), now, timeout) =~= purge_model(
                        seq_to_model(self.records@),
                        now,
                        timeout,
                    ).union_prefer_right(seq_to_model(kept@)));
                }
            }
            proof {
                assert forall|a: IpAddress| #[trigger]
                    seq_has_addr(kept@, a) implies !seq_has_addr(self.records@, a) by {
                    if seq_has_addr(self.records@, a) {
                        let q = choose|p: int|
                            0 <= p < self.records@.len() && (#[trigger] self.records@[p]).address
                                == a;
                        assert(prev.drop_last()[q] == prev[q]);
                        assert(seq_has_addr(prev, a));
                        assert(seq_has_addr(prev.drop_last(), a));
                        let k = choose|p: int|
                            0 <= p < kept@.len() && (#[trigger] kept@[p]).address == a;
                        if k < kept_before.len() {
                            assert(kept_before[k].address == a);
                            assert(seq_has_addr(kept_before, a));
                        } else {
                            assert(a == r.address);
                        }
                    }
                }
            }
        }
        proof {
            assert(self.records@.len() == 0);
            if exists|a: IpAddress| seq_to_model(self.records@).dom().contains(a) {
                let a = choose|a: IpAddress| seq_to_model(self.records@).dom().contains(a);
                let k = choose|p: int|
                    0 <= p < self.records@.len() && (#[trigger] self.records@[p]).address == a;
            }
            assert(purge_model(seq_to_model(s0), now, timeout) =~= seq_to_model(kept@));
        }
        self.records = kept;
    }

    /// A consistent copy of every record except the one for
    /// `exclude`, for display or nickname lookup.
    pub fn snapshot(&self, exclude: IpAddress) -> (r: Vec<PeerRecord>)
        requires
            self.wf(),
        ensures
            wf_seq(r@),
            forall|k: int|
                0 <= k < r@.len() ==> ((#[trigger] r@[k]).address != exclude
                    && self@.dom().contains(r@[k].address) && self@[r@[k].address].0
                    == r@[k].nickname@ && self@[r@[k].address].1 == r@[k].last_seen),
            forall|a: IpAddress|
                #[trigger] self@.dom().contains(a) && a != exclude ==> seq_has_addr(r@, a),
    {
        let ghost s0 = self.records@;
        let n = self.records.len();
        let mut out: Vec<PeerRecord> = Vec::new();
        let mut i: usize = 0;
        while i < n
            invariant
                self.wf(),
                s0 == self.records@,
                n == s0.len(),
                i <= n,
                wf_seq(out@),
                forall|a: IpAddress| #[trigger]
                    seq_has_addr(out@, a) ==> seq_has_addr(s0.take(i as int), a),
                forall|k: int|
                    0 <= k < out@.len() ==> ((#[trigger] out@[k]).address != exclude
                        && self@.dom().contains(out@[k].address) && self@[out@[k].address].0
                        == out@[k].nickname@ && self@[out@[k].address].1 == out@[k].last_seen),
                forall|a: IpAddress|
                    #[trigger] seq_has_addr(s0.take(i as int), a) && a != exclude
                        ==> seq_has_addr(out@, a),
            decreases n - i,
        {
            let ghost out_before = out@;
            let rec = &self.records[i];
            if !(rec.address == exclude) {
                proof {
                    lemma_model_value(s0, i as int);
                    if seq_has_addr(out@, rec.address) {
                        assert(seq_has_addr(s0.take(i as int), rec.address));
                        let k = choose|p: int|
                            0 <= p < s0.take(i as int).len() && (#[trigger] s0.take(
                                i as int,
                            )[p]).address == rec.address;
                        lemma_wf_unique(s0, k, i as int);
                    }
                }
                let copy = PeerRecord {
                    address: rec.address,
                    nickname: copy_bytes(&rec.nickname),
                    last_seen: rec.last_seen,
                };
                out.push(copy);
                proof {
                    assert forall|p: int, q: int|
                        0 <= p < q < out@.len() implies out@[p].address != out@[q].address by {
                        if q == out@.len() - 1 {
                            assert(out@[p] == out_before[p]);
                            assert(seq_has_addr(out_before, out_before[p].address));
                        }
                    }
                }
            }
            i = i + 1;
            proof {
                assert(forall|j: int| 0 <= j < i ==> s0.take(i as int)[j] == s0[j]);
                assert forall|a: IpAddress| #[trigger]
                    seq_has_addr(out@, a) implies seq_has_addr(s0.take(i as int), a) by {
                    let k = choose|p: int|
                        0 <= p < out@.len() && (#[trigger] out@[p]).address == a;
                    if k < out_before.len() {
                        assert(out_before[k].address == a);
                        assert(seq_has_addr(out_before, a));
                        let k2 = choose|p: int|
                            0 <= p < s0.take(i - 1).len() && (#[trigger] s0.take(i - 1)[p]).address
                                == a;
                        assert(s0.take(i as int)[k2].address == a);
                        assert(seq_has_addr(s0.take(i as int), a));
                    } else {
                        assert(s0.take(i as int)[i - 1].address == a);
                        assert(seq_has_addr(s0.take(i as int), a));
                    }
                }
                assert forall|a: IpAddress| #[trigger]
                    seq_has_addr(s0.take(i as int), a) && a != exclude implies seq_has_addr(
                    out@,
                    a,
                ) by {
                    let k = choose|p: int|
                        0 <= p < s0.take(i as int).len() && (#[trigger] s0.take(i as int)[p]).address
                            == a;
                    if k < i - 1 {
                        assert(s0.take(i - 1)[k].address == a);
                        assert(seq_has_addr(s0.take(i - 1), a));
                        let k2 = choose|p: int|
                            0 <= p < out_before.len() && (#[trigger] out_before[p]).address == a;
                        assert(out@[k2].address == a);
                        assert(seq_has_addr(out@, a));
                    } else {
                        assert(s0[i - 1].address == a);
                        assert(out@[out@.len() - 1].address == a);
                        assert(seq_has_addr(out@, a));
                    }
                }
            }
        }
        proof {
            assert(s0.take(n as int) =~= s0);
            assert forall|a: IpAddress|
                #[trigger] self@.dom().contains(a) && a != exclude implies seq_has_addr(
                out@,
                a,
            ) by {
                assert(seq_has_addr(s0, a));
                assert(seq_has_addr(s0.take(n as int), a));
            }
        }
        out
    }

    /// Finds the address of some peer announcing `nickname`, or
    /// nothing when no record carries that nickname.
    pub fn resolve_nickname(&self, nickname: &Vec<u8>) -> (r: Option<IpAddress>)
        requires
            self.wf(),
        ensures
            match r {
                Some(a) => self@.dom().contains(a) && self@[a].0 == nickname@,
                None => forall|a: IpAddress|
                    #[trigger] self@.dom().contains(a) ==> self@[a].0 != nickname@,
            },
    {
        let n = self.records.len();
        let mut i: usize = 0;
        while i < n
            invariant
                self.wf(),
                n == self.records@.len(),
                i <= n,
                forall|j: int| 0 <= j < i ==> (#[trigger] self.records@[j]).nickname@ != nickname@,
            decreases n - i,
        {
            if crate::bytes::bytes_eq(&self.records[i].nickname, nickname) {
                proof {
                    lemma_model_value(self.records@, i as int);
                }
                return Some(self.records[i].address);
            }
            i = i + 1;
        }
        proof {
            assert forall|a: IpAddress| #[trigger]
                self@.dom().contains(a) implies self@[a].0 != nickname@ by {
                let k = choose|p: int|
                    0 <= p < self.records@.len() && (#[trigger] self.records@[p]).address == a;
                lemma_model_value(self.records@, k);
            }
        }
        None
    }
}

/// Removes every record whose last heartbeat is `timeout` seconds or
/// more in the past at time `now`; every fresher record stays,
/// unchanged.
pub fn cleanup_inactive(registry: &mut PeerRegistry, now: u64, timeout: u64)
    requires
        old(registry).wf(),
    ensures
        final(registry).wf(),
        final(registry)@ == purge_model(old(registry)@, now, timeout),
{
    registry.purge(now, timeout);
}

/// A peer whose last heartbeat is within the timeout at purge time
/// keeps its record unchanged through the purge; one whose heartbeat
/// is `timeout` seconds old or older is absent afterwards, and so is
/// every address the table never held.
pub proof fn lemma_purge_presence(
    m: Map<IpAddress, (Seq<u8>, u64)>,
    now: u64,
    timeout: u64,
    a: IpAddress,
)
    ensures
        m.dom().contains(a) && m[a].1 + timeout > now ==> purge_model(m, now, timeout).dom()
            .contains(a) && purge_model(m, now, timeout)[a] == m[a],
        m.dom().contains(a) && m[a].1 + timeout <= now ==> !purge_model(m, now, timeout).dom()
            .contains(a),
        !m.dom().contains(a) ==> !purge_model(m, now, timeout).dom().contains(a),
{
}

/// Upserts for one address are idempotent in the table model: a second
/// upsert of the same address leaves exactly the table a single upsert
/// of the latest nickname and time would, so repeated heartbeats never
/// accumulate duplicate entries and last write wins.
pub proof fn lemma_upsert_idempotent(
    m: Map<IpAddress, (Seq<u8>, u64)>,
    a: IpAddress,
    n1: Seq<u8>,
    t1: u64,
    n2: Seq<u8>,
    t2: u64,
)
    ensures
        m.insert(a, (n1, t1)).insert(a, (n2, t2)) == m.insert(a, (n2, t2)),
{
    assert(m.insert(a, (n1, t1)).insert(a, (n2, t2)) =~= m.insert(a, (n2, t2)));
}

} // verus!
