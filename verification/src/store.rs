//! Swarm membership store: a table of peer records keyed by
//! (info_hash, source ip, source port, peer_id), with at most one live
//! record per key. Supports upsert, removal, swarm selection, seeder and
//! leecher counts, and idle-based pruning.
use vstd::prelude::*;

verus! {

broadcast use vstd::seq_lib::group_filter_ensures;

/// One peer's membership in one torrent's swarm.
#[derive(Clone, Debug)]
pub struct PeerRecord {
    pub info_hash: Vec<u8>,
    pub ip: u32,
    pub port: u16,
    pub peer_id: Vec<u8>,
    pub remaining: u64,
    pub last_active: u64,
}

/// A peer record as mathematical values.
#[verifier::ext_equal]
pub ghost struct PeerView {
    pub info_hash: Seq<u8>,
    pub ip: u32,
    pub port: u16,
    pub peer_id: Seq<u8>,
    pub remaining: u64,
    pub last_active: u64,
}

impl View for PeerRecord {
    type V = PeerView;

    open spec fn view(&self) -> PeerView {
        PeerView {
            info_hash: self.info_hash@,
            ip: self.ip,
            port: self.port,
            peer_id: self.peer_id@,
            remaining: self.remaining,
            last_active: self.last_active,
        }
    }
}

/// The primary key of a peer record.
#[verifier::ext_equal]
pub ghost struct PeerKey {
    pub info_hash: Seq<u8>,
    pub ip: u32,
    pub port: u16,
    pub peer_id: Seq<u8>,
}

/// The key of a record.
pub open spec fn key_of(r: PeerView) -> PeerKey {
    PeerKey { info_hash: r.info_hash, ip: r.ip, port: r.port, peer_id: r.peer_id }
}

/// No two records share a key.
pub open spec fn distinct_keys(s: Seq<PeerView>) -> bool {
    forall|i: int, j: int| 0 <= i < j < s.len() ==> key_of(s[i]) != key_of(s[j])
}

/// Some record has this key.
pub open spec fn has_key(s: Seq<PeerView>, k: PeerKey) -> bool {
    exists|i: int| 0 <= i < s.len() && key_of(s[i]) == k
}

/// The index of the record with this key (meaningful when `has_key`
/// holds; with `distinct_keys` it is the unique such index).
pub open spec fn key_index(s: Seq<PeerView>, k: PeerKey) -> int {
    choose|i: int| 0 <= i < s.len() && key_of(s[i]) == k
}

/// The table after an upsert: the record with the same key is overwritten
/// in place, or the new record is appended.
pub open spec fn upsert_spec(s: Seq<PeerView>, r: PeerView) -> Seq<PeerView> {
    if has_key(s, key_of(r)) {
        s.update(key_index(s, key_of(r)), r)
    } else {
        s.push(r)
    }
}

/// The table after a removal: the record with the key is gone; a removal
/// of an absent key changes nothing.
pub open spec fn remove_spec(s: Seq<PeerView>, k: PeerKey) -> Seq<PeerView> {
    if has_key(s, k) {
        s.remove(key_index(s, k))
    } else {
        s
    }
}

/// A record is live at `now` when it has been active within the idle
/// threshold. A record stamped in the future counts as live.
pub open spec fn live(r: PeerView, now: u64, idle_threshold: u64) -> bool {
    now - r.last_active <= idle_threshold
}

/// The table after a prune sweep: exactly the live records, in order.
pub open spec fn prune_spec(s: Seq<PeerView>, now: u64, idle_threshold: u64) -> Seq<PeerView> {
    s.filter(|r: PeerView| live(r, now, idle_threshold))
}

/// Membership of a record in the swarm sent to the requester with key
/// `ex`: same torrent, any key but the requester's own.
pub open spec fn in_swarm_for(r: PeerView, info_hash: Seq<u8>, ex: PeerKey) -> bool {
    r.info_hash == info_hash && key_of(r) != ex
}

/// The records of a torrent's swarm, the requester excluded, in table
/// order.
pub open spec fn swarm_records(s: Seq<PeerView>, info_hash: Seq<u8>, ex: PeerKey) -> Seq<
    PeerView,
> {
    s.filter(|r: PeerView| in_swarm_for(r, info_hash, ex))
}

/// The (ip, port) entries of a torrent's swarm, the requester excluded.
pub open spec fn swarm_peers(s: Seq<PeerView>, info_hash: Seq<u8>, ex: PeerKey) -> Seq<
    (u32, u16),
> {
    swarm_records(s, info_hash, ex).map_values(|r: PeerView| (r.ip, r.port))
}

/// A sequence cut to at most `n` entries.
pub open spec fn clipped<A>(s: Seq<A>, n: int) -> Seq<A> {
    if n < s.len() {
        s.take(n)
    } else {
        s
    }
}

/// How many of a torrent's peers still have data to download.
pub open spec fn leecher_count(s: Seq<PeerView>, info_hash: Seq<u8>) -> nat {
    s.filter(|r: PeerView| r.info_hash == info_hash && r.remaining > 0).len()
}

/// How many of a torrent's peers hold the whole torrent.
pub open spec fn seeder_count(s: Seq<PeerView>, info_hash: Seq<u8>) -> nat {
    s.filter(|r: PeerView| r.info_hash == info_hash && r.remaining == 0).len()
}

/// Byte-vector equality.
fn bytes_eq(a: &Vec<u8>, b: &Vec<u8>) -> (r: bool)
    ensures
        r == (a@ == b@),
{
    if a.len() != b.len() {
        return false;
    }
    let mut i: usize = 0;
    while i < a.len()
        invariant
            a@.len() == b@.len(),
            i <= a@.len(),
            forall|j: int| 0 <= j < i ==> a@[j] == b@[j],
        decreases a@.len() - i,
    {
        if a[i] != b[i] {
            return false;
        }
        i = i + 1;
    }
    proof {
        assert(a@ =~= b@);
    }
    true
}

/// Whether a record carries exactly this key.
fn record_has_key(
    r: &PeerRecord,
    info_hash: &Vec<u8>,
    ip: u32,
    port: u16,
    peer_id: &Vec<u8>,
) -> (b: bool)
    ensures
        b == (key_of(r@) == PeerKey {
            info_hash: info_hash@,
            ip,
            port,
            peer_id: peer_id@,
        }),
{
    r.ip == ip && r.port == port && bytes_eq(&r.info_hash, info_hash) && bytes_eq(
        &r.peer_id,
        peer_id,
    )
}

/// The swarm membership table. Holds at most one record per key.
pub struct PeerStore {
    records: Vec<PeerRecord>,
}

impl View for PeerStore {
    type V = Seq<PeerView>;

    closed spec fn view(&self) -> Seq<PeerView> {
        self.records@.map_values(|r: PeerRecord| r@)
    }
}

impl PeerStore {
    /// The store's invariant: no two records share a key.
    pub open spec fn wf(&self) -> bool {
        distinct_keys(self@)
    }

    /// An empty store.
    pub fn new() -> (s: Self)
        ensures
            s.wf(),
            s@ == Seq::<PeerView>::empty(),
    {
        let s = PeerStore { records: Vec::new() };
        proof {
            assert(s@ =~= Seq::<PeerView>::empty());
        }
        s
    }

    /// The index of the record with the given key, if one is present.
    fn find_index(
        &self,
        info_hash: &Vec<u8>,
        ip: u32,
        port: u16,
        peer_id: &Vec<u8>,
    ) -> (r: Option<usize>)
        ensures
            ({
                let k = PeerKey { info_hash: info_hash@, ip, port, peer_id: peer_id@ };
                match r {
                    Some(i) => 0 <= i < self@.len() && key_of(self@[i as int]) == k && has_key(
                        self@,
                        k,
                    ),
                    None => !has_key(self@, k),
                }
            }),
    {
        let ghost k = PeerKey { info_hash: info_hash@, ip, port, peer_id: peer_id@ };
        let n = self.records.len();
        let mut i: usize = 0;
        while i < n
            invariant
                n == self@.len(),
                i <= n,
                forall|j: int| 0 <= j < i ==> key_of(self@[j]) != k,
                k == (PeerKey { info_hash: info_hash@, ip, port, peer_id: peer_id@ }),
            decreases n - i,
        {
            if record_has_key(&self.records[i], info_hash, ip, port, peer_id) {
                assert(key_of(self@[i as int]) == k);
                return Some(i);
            }
            i = i + 1;
        }
        None
    }

    /// Inserts the record, or overwrites the record that shares its key.
    pub fn upsert(&mut self, rec: PeerRecord)
        requires
            old(self).wf(),
        ensures
            final(self).wf(),
            final(self)@ == upsert_spec(old(self)@, rec@),
    {
        let ghost s = self@;
        let ghost k = key_of(rec@);
        match self.find_index(&rec.info_hash, rec.ip, rec.port, &rec.peer_id) {
            Some(i) => {
                proof {
                    // the found index is the unique index of the key
                    let w = key_index(s, k);
                    assert(0 <= w < s.len() && key_of(s[w]) == k);
                    assert(w == i as int);
                }
                self.records.remove(i);
                self.records.insert(i, rec);
                proof {
                    assert(self@ =~= s.update(i as int, rec@));
                    assert forall|a: int, b: int| 0 <= a < b < self@.len() implies key_of(
                        self@[a],
                    ) != key_of(self@[b]) by {
                        assert(key_of(s[a]) != key_of(s[b]));
                    }
                }
            },
            None => {
                self.records.push(rec);
                proof {
                    assert(self@ =~= s.push(rec@));
                    assert forall|a: int, b: int| 0 <= a < b < self@.len() implies key_of(
                        self@[a],
                    ) != key_of(self@[b]) by {
                        if b < s.len() {
                            assert(key_of(s[a]) != key_of(s[b]));
                        } else {
                            assert(self@[b] == rec@);
                            assert(key_of(s[a]) != k);
                        }
                    }
                }
            },
        }
    }

    /// Removes the record with the given key; a no-op when none holds it.
    pub fn remove(&mut self, info_hash: &Vec<u8>, ip: u32, port: u16, peer_id: &Vec<u8>)
        requires
            old(self).wf(),
        ensures
            final(self).wf(),
            final(self)@ == remove_spec(
                old(self)@,
                PeerKey { info_hash: info_hash@, ip, port, peer_id: peer_id@ },
            ),
            !has_key(
                final(self)@,
                PeerKey { info_hash: info_hash@, ip, port, peer_id: peer_id@ },
            ),
    {
        let ghost s = self@;
        let ghost k = PeerKey { info_hash: info_hash@, ip, port, peer_id: peer_id@ };
        match self.find_index(info_hash, ip, port, peer_id) {
            Some(i) => {
                proof {
                    let w = key_index(s, k);
                    assert(0 <= w < s.len() && key_of(s[w]) == k);
                    assert(w == i as int);
                }
                self.records.remove(i);
                proof {
                    assert(self@ =~= s.remove(i as int));
                    assert forall|a: int, b: int| 0 <= a < b < self@.len() implies key_of(
                        self@[a],
                    ) != key_of(self@[b]) by {
                        let a0 = if a < i as int { a } else { a + 1 };
                        let b0 = if b < i as int { b } else { b + 1 };
                        assert(self@[a] == s[a0]);
                        assert(self@[b] == s[b0]);
                        assert(key_of(s[a0]) != key_of(s[b0]));
                    }
                    assert forall|j: int| 0 <= j < self@.len() implies key_of(self@[j]) != k by {
                        let j0 = if j < i as int { j } else { j + 1 };
                        assert(self@[j] == s[j0]);
                        assert(j0 != i as int);
                        assert(key_of(s[j0]) != key_of(s[i as int]));
                    }
                }
            },
            None => {
                proof {
                    assert forall|j: int| 0 <= j < self@.len() implies key_of(self@[j]) != k by {}
                }
            },
        }
    }

    /// How many records the store holds.
    pub fn peer_count(&self) -> (n: usize)
        ensures
            n == self@.len(),
    {
        self.records.len()
    }

    /// Up to `limit` (ip, port) entries of the torrent's swarm, in table
    /// order, never including the requester's own key.
    pub fn select_swarm(
        &self,
        info_hash: &Vec<u8>,
        ex_ip: u32,
        ex_port: u16,
        ex_peer_id: &Vec<u8>,
        limit: usize,
    ) -> (r: Vec<(u32, u16)>)
        ensures
            r@ == clipped(
                swarm_peers(
                    self@,
                    info_hash@,
                    PeerKey { info_hash: info_hash@, ip: ex_ip, port: ex_port, peer_id: ex_peer_id@ },
                ),
                limit as int,
            ),
    {
        let ghost s = self@;
        let ghost ex = PeerKey {
            info_hash: info_hash@,
            ip: ex_ip,
            port: ex_port,
            peer_id: ex_peer_id@,
        };
        let ghost pred = |r: PeerView| in_swarm_for(r, info_hash@, ex);
        let mut out: Vec<(u32, u16)> = Vec::new();
        let n = self.records.len();
        let mut i: usize = 0;
        while i < n
            invariant
                n == s.len(),
                s == self@,
                i <= n,
                ex == (PeerKey {
                    info_hash: info_hash@,
                    ip: ex_ip,
                    port: ex_port,
                    peer_id: ex_peer_id@,
                }),
                pred == (|r: PeerView| in_swarm_for(r, info_hash@, ex)),
                out@ == clipped(
                    s.take(i as int).filter(pred).map_values(|r: PeerView| (r.ip, r.port)),
                    limit as int,
                ),
                out@.len() <= limit,
            decreases n - i,
        {
            let rec = &self.records[i];
            let ghost taken = s.take(i as int);
            proof {
                assert(taken.push(s[i as int]) =~= s.take(i + 1));
                lemma_filter_push(taken, pred, s[i as int]);
            }
            let matches_swarm = bytes_eq(&rec.info_hash, info_hash) && !record_has_key(
                rec,
                info_hash,
                ex_ip,
                ex_port,
                ex_peer_id,
            );
            proof {
                assert(rec@ == s[i as int]);
                assert(matches_swarm == pred(s[i as int]));
            }
            if matches_swarm && out.len() < limit {
                out.push((rec.ip, rec.port));
            }
            proof {
                let f0 = taken.filter(pred);
                let f1 = s.take(i + 1).filter(pred);
                let m0 = f0.map_values(|r: PeerView| (r.ip, r.port));
                let m1 = f1.map_values(|r: PeerView| (r.ip, r.port));
                if pred(s[i as int]) {
                    assert(f1 == f0.push(s[i as int]));
                    assert(m1 =~= m0.push((s[i as int].ip, s[i as int].port)));
                    if m0.len() < limit {
                        assert(clipped(m0, limit as int) =~= m0);
                        assert(out@ =~= clipped(m1, limit as int));
                    } else {
                        assert(clipped(m1, limit as int) =~= clipped(m0, limit as int));
                    }
                } else {
                    assert(f1 == f0);
                }
            }
            i = i + 1;
        }
        proof {
            assert(s.take(n as int) =~= s);
        }
        out
    }

    /// The torrent's (leechers, seeders) counts: a peer with no data
    /// remaining is a seeder, any other a leecher.
    pub fn counts(&self, info_hash: &Vec<u8>) -> (r: (u64, u64))
        ensures
            r.0 == leecher_count(self@, info_hash@),
            r.1 == seeder_count(self@, info_hash@),
    {
        let ghost s = self@;
        let ghost leech_pred = |r: PeerView| r.info_hash == info_hash@ && r.remaining > 0;
        let ghost seed_pred = |r: PeerView| r.info_hash == info_hash@ && r.remaining == 0;
        let mut leechers: u64 = 0;
        let mut seeders: u64 = 0;
        let n = self.records.len();
        let mut i: usize = 0;
        while i < n
            invariant
                n == s.len(),
                s == self@,
                i <= n,
                leech_pred == (|r: PeerView| r.info_hash == info_hash@ && r.remaining > 0),
                seed_pred == (|r: PeerView| r.info_hash == info_hash@ && r.remaining == 0),
                leechers == s.take(i as int).filter(leech_pred).len(),
                seeders == s.take(i as int).filter(seed_pred).len(),
                leechers + seeders <= i,
            decreases n - i,
        {
            let rec = &self.records[i];
            let ghost taken = s.take(i as int);
            proof {
                assert(taken.push(s[i as int]) =~= s.take(i + 1));
                lemma_filter_push(taken, leech_pred, s[i as int]);
                lemma_filter_push(taken, seed_pred, s[i as int]);
                assert(rec@ == s[i as int]);
            }
            if bytes_eq(&rec.info_hash, info_hash) {
                if rec.remaining > 0 {
                    leechers = leechers + 1;
                } else {
                    seeders = seeders + 1;
                }
            }
            i = i + 1;
        }
        proof {
            assert(s.take(n as int) =~= s);
        }
        (leechers, seeders)
    }

    /// Removes every record idle past the threshold: a record survives
    /// exactly when its last activity lies within `idle_threshold` of
    /// `now`.
    pub fn prune(&mut self, now: u64, idle_threshold: u64)
        requires
            old(self).wf(),
        ensures
            final(self).wf(),
            final(self)@ == prune_spec(old(self)@, now, idle_threshold),
    {
        let ghost s = self@;
        let ghost pred = |r: PeerView| live(r, now, idle_threshold);
        let mut pending: Vec<PeerRecord> = Vec::new();
        core::mem::swap(&mut self.records, &mut pending);
        let ghost done = Seq::<PeerView>::empty();
        proof {
            assert(done + pending@.map_values(|r: PeerRecord| r@) =~= s);
            assert(self@ =~= done.filter(pred));
        }
        while pending.len() > 0
            invariant
                pred == (|r: PeerView| live(r, now, idle_threshold)),
                done + pending@.map_values(|r: PeerRecord| r@) == s,
                self@ == done.filter(pred),
            decreases pending@.len(),
        {
            let ghost done_pre = done;
            let rec = pending.remove(0);
            proof {
                done = done_pre.push(rec@);
                assert(done + pending@.map_values(|r: PeerRecord| r@) =~= s);
                lemma_filter_push(done_pre, pred, rec@);
            }
            let keep = rec.last_active >= now || now - rec.last_active <= idle_threshold;
            proof {
                assert(keep == pred(rec@));
            }
            if keep {
                self.records.push(rec);
                proof {
                    assert(self@ =~= done.filter(pred));
                }
            }
        }
        proof {
            assert(pending@.map_values(|r: PeerRecord| r@) =~= Seq::<PeerView>::empty());
            assert(done =~= s);
            lemma_distinct_keys_filter(s, pred);
        }
    }
}

/// Upserting a record twice leaves the table exactly as one upsert does:
/// the second write overwrites the first with the same values.
pub proof fn lemma_upsert_idempotent(s: Seq<PeerView>, r: PeerView)
    requires
        distinct_keys(s),
    ensures
        upsert_spec(upsert_spec(s, r), r) == upsert_spec(s, r),
{
    let k = key_of(r);
    if has_key(s, k) {
        let i = key_index(s, k);
        assert(0 <= i < s.len() && key_of(s[i]) == k);
        let s1 = s.update(i, r);
        assert(upsert_spec(s, r) == s1);
        assert(key_of(s1[i]) == k);
        assert(has_key(s1, k));
        let w = key_index(s1, k);
        assert(0 <= w < s1.len() && key_of(s1[w]) == k);
        if w != i {
            assert(key_of(s1[w]) == key_of(s[w]));
            assert(key_of(s[w]) != key_of(s[i]));
            assert(false);
        }
        assert(s1.update(i, r) =~= s1);
    } else {
        let s1 = s.push(r);
        let n = s.len() as int;
        assert(key_of(s1[n]) == k);
        assert(has_key(s1, k));
        let w = key_index(s1, k);
        assert(0 <= w < s1.len() && key_of(s1[w]) == k);
        if w != n {
            assert(key_of(s1[w]) == key_of(s[w]));
            assert(has_key(s, k));
            assert(false);
        }
        assert(s1.update(n, r) =~= s1);
    }
}

/// Pruning keeps exactly the live records: every survivor lies within the
/// idle threshold, and every record active within the threshold survives.
pub proof fn lemma_prune_boundary(s: Seq<PeerView>, now: u64, idle_threshold: u64)
    ensures
        forall|i: int|
            0 <= i < prune_spec(s, now, idle_threshold).len() ==> now - #[trigger] prune_spec(
                s,
                now,
                idle_threshold,
            )[i].last_active <= idle_threshold,
        forall|r: PeerView|
            s.contains(r) && now - r.last_active <= idle_threshold ==> prune_spec(
                s,
                now,
                idle_threshold,
            ).contains(r),
{
    let pred = |r: PeerView| live(r, now, idle_threshold);
    assert forall|r: PeerView|
        s.contains(r) && now - r.last_active <= idle_threshold implies prune_spec(
        s,
        now,
        idle_threshold,
    ).contains(r) by {
        let j = choose|j: int| 0 <= j < s.len() && s[j] == r;
        assert(pred(s[j]));
        assert(s.filter(pred).contains(s[j]));
    }
}

/// A record stamped no older than the idle threshold survives a prune
/// sweep that runs right after it was upserted.
pub proof fn lemma_fresh_record_survives_prune(
    s: Seq<PeerView>,
    r: PeerView,
    now: u64,
    idle_threshold: u64,
)
    requires
        now - r.last_active <= idle_threshold,
    ensures
        prune_spec(upsert_spec(s, r), now, idle_threshold).contains(r),
{
    let s1 = upsert_spec(s, r);
    let k = key_of(r);
    if has_key(s, k) {
        let i = key_index(s, k);
        assert(0 <= i < s.len() && key_of(s[i]) == k);
        assert(s1[i] == r);
        assert(s1.contains(r));
    } else {
        assert(s1[s.len() as int] == r);
        assert(s1.contains(r));
    }
    let pred = |x: PeerView| live(x, now, idle_threshold);
    let j = choose|j: int| 0 <= j < s1.len() && s1[j] == r;
    assert(pred(s1[j]));
    assert(s1.filter(pred).contains(s1[j]));
}

/// Removing a stopped peer's record leaves its key absent and takes the
/// record out of the torrent's counts, and out of nothing else.
pub proof fn lemma_stopped_peer_excluded(s: Seq<PeerView>, k: PeerKey, info_hash: Seq<u8>)
    requires
        distinct_keys(s),
        has_key(s, k),
    ensures
        ({
            let r = s[key_index(s, k)];
            let s1 = remove_spec(s, k);
            &&& !has_key(s1, k)
            &&& leecher_count(s1, info_hash) + (if r.info_hash == info_hash && r.remaining > 0 {
                1nat
            } else {
                0nat
            }) == leecher_count(s, info_hash)
            &&& seeder_count(s1, info_hash) + (if r.info_hash == info_hash && r.remaining == 0 {
                1nat
            } else {
                0nat
            }) == seeder_count(s, info_hash)
        }),
{
    reveal(Seq::filter);
    let i = key_index(s, k);
    assert(0 <= i < s.len() && key_of(s[i]) == k);
    let r = s[i];
    let s1 = remove_spec(s, k);
    assert(s1 == s.remove(i));
    assert forall|j: int| 0 <= j < s1.len() implies key_of(s1[j]) != k by {
        let j0 = if j < i {
            j
        } else {
            j + 1
        };
        assert(s1[j] == s[j0]);
        assert(j0 != i);
        assert(key_of(s[j0]) != key_of(s[i]));
    }
    let lp = |x: PeerView| x.info_hash == info_hash && x.remaining > 0;
    let sp = |x: PeerView| x.info_hash == info_hash && x.remaining == 0;
    let front = s.take(i);
    let back = s.skip(i + 1);
    assert(s =~= front + (seq![r] + back));
    assert(s1 =~= front + back);
    let nil = Seq::<PeerView>::empty();
    assert(nil.filter(lp) == nil);
    assert(nil.filter(sp) == nil);
    assert(nil.push(r) =~= seq![r]);
    lemma_filter_push(nil, lp, r);
    lemma_filter_push(nil, sp, r);
    assert(nil.push(r) =~= seq![r]);
    assert(seq![r].filter(lp) == if lp(r) {
        nil.push(r)
    } else {
        nil
    });
    assert(seq![r].filter(sp) == if sp(r) {
        nil.push(r)
    } else {
        nil
    });
    Seq::filter_distributes_over_add(front, seq![r] + back, lp);
    Seq::filter_distributes_over_add(seq![r], back, lp);
    Seq::filter_distributes_over_add(front, back, lp);
    Seq::filter_distributes_over_add(front, seq![r] + back, sp);
    Seq::filter_distributes_over_add(seq![r], back, sp);
    Seq::filter_distributes_over_add(front, back, sp);
}

/// The swarm handed out for a requester never holds the requester's own
/// key, and holds only peers of the requested torrent.
pub proof fn lemma_swarm_excludes_requester(s: Seq<PeerView>, info_hash: Seq<u8>, ex: PeerKey)
    ensures
        forall|i: int|
            0 <= i < swarm_records(s, info_hash, ex).len() ==> key_of(
                #[trigger] swarm_records(s, info_hash, ex)[i],
            ) != ex && swarm_records(s, info_hash, ex)[i].info_hash == info_hash,
{
    let pred = |r: PeerView| in_swarm_for(r, info_hash, ex);
    assert forall|i: int|
        0 <= i < swarm_records(s, info_hash, ex).len() implies key_of(
        #[trigger] swarm_records(s, info_hash, ex)[i],
    ) != ex && swarm_records(s, info_hash, ex)[i].info_hash == info_hash by {
        assert(pred(s.filter(pred)[i]));
    }
}

/// Filtering past a pushed element: the element joins the filtered
/// sequence exactly when it satisfies the predicate.
pub proof fn lemma_filter_push<A>(s: Seq<A>, pred: spec_fn(A) -> bool, x: A)
    ensures
        s.push(x).filter(pred) == if pred(x) {
            s.filter(pred).push(x)
        } else {
            s.filter(pred)
        },
{
    reveal(Seq::filter);
    assert(s.push(x).drop_last() =~= s);
    assert(s.push(x).last() == x);
}

/// Every element of a filtered sequence is an element of the original.
pub proof fn lemma_filter_elements<A>(s: Seq<A>, pred: spec_fn(A) -> bool)
    ensures
        forall|i: int|
            0 <= i < s.filter(pred).len() ==> s.contains(#[trigger] s.filter(pred)[i]),
    decreases s.len(),
{
    reveal(Seq::filter);
    if s.len() > 0 {
        let t = s.drop_last();
        lemma_filter_elements(t, pred);
        assert forall|i: int|
            0 <= i < s.filter(pred).len() implies s.contains(#[trigger] s.filter(pred)[i]) by {
            if i < t.filter(pred).len() {
                assert(t.contains(t.filter(pred)[i]));
                let j = choose|j: int| 0 <= j < t.len() && t[j] == t.filter(pred)[i];
                assert(s[j] == s.filter(pred)[i]);
            } else {
                assert(s.filter(pred)[i] == s.last());
                assert(s[s.len() - 1] == s.last());
            }
        }
    }
}

/// Filtering keeps keys distinct.
pub proof fn lemma_distinct_keys_filter(s: Seq<PeerView>, pred: spec_fn(PeerView) -> bool)
    requires
        distinct_keys(s),
    ensures
        distinct_keys(s.filter(pred)),
    decreases s.len(),
{
    reveal(Seq::filter);
    if s.len() > 0 {
        let t = s.drop_last();
        assert(distinct_keys(t)) by {
            assert forall|i: int, j: int| 0 <= i < j < t.len() implies key_of(t[i]) != key_of(
                t[j],
            ) by {
                assert(key_of(s[i]) != key_of(s[j]));
            }
        }
        lemma_distinct_keys_filter(t, pred);
        if pred(s.last()) {
            lemma_filter_elements(t, pred);
            let ft = t.filter(pred);
            assert forall|i: int| 0 <= i < ft.len() implies key_of(ft[i]) != key_of(
                s.last(),
            ) by {
                assert(t.contains(ft[i]));
                let j = choose|j: int| 0 <= j < t.len() && t[j] == ft[i];
                assert(key_of(s[j]) != key_of(s[s.len() - 1]));
            }
            assert(s.filter(pred) == ft.push(s.last()));
            assert forall|a: int, b: int|
                0 <= a < b < s.filter(pred).len() implies key_of(s.filter(pred)[a]) != key_of(
                s.filter(pred)[b],
            ) by {
                if b < ft.len() {
                    assert(key_of(ft[a]) != key_of(ft[b]));
                } else {
                    assert(s.filter(pred)[b] == s.last());
                    assert(key_of(ft[a]) != key_of(s.last()));
                }
            }
        }
    }
}

} // verus!
