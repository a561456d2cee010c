//! The swarm store: the sole owner of peer records. It keeps at most
//! one record per identity tuple `(info_hash, address, port, peer_id)`,
//! replaces the record on every fresh announce, answers the
//! seeder/leecher/peer-list query for an info-hash, and evicts records
//! that have gone stale.

use vstd::prelude::*;

use crate::packet_data_types::PeerAddr;

verus! {

/// A storage failure. The store in this crate is an in-memory engine
/// and never raises one; the variant exists so that callers are
/// written against the fallible store contract.
#[derive(Clone, Copy, Debug, PartialEq, Eq, Structural)]
pub enum StoreError {
    Unavailable,
}

/// One peer's announce state, keyed by the identity tuple
/// `(info_hash, addr, port, peer_id)`.
pub struct PeerRecord {
    pub info_hash: Vec<u8>,
    pub addr: PeerAddr,
    pub port: u16,
    pub peer_id: Vec<u8>,
    pub remaining: i64,
    pub last_active: i64,
}

/// Does `r` carry exactly this identity tuple?
pub open spec fn is_identity(
    r: PeerRecord,
    info_hash: Seq<u8>,
    addr: PeerAddr,
    port: u16,
    peer_id: Seq<u8>,
) -> bool {
    r.info_hash@ == info_hash && r.addr == addr && r.port == port && r.peer_id@ == peer_id
}

/// Do two records carry the same identity tuple?
pub open spec fn same_identity(a: PeerRecord, b: PeerRecord) -> bool {
    is_identity(a, b.info_hash@, b.addr, b.port, b.peer_id@)
}

/// The store's invariant: no two records share an identity tuple.
pub open spec fn wf_records(s: Seq<PeerRecord>) -> bool {
    forall|i: int, j: int| 0 <= i < j < s.len() ==> !same_identity(s[i], s[j])
}

/// How many records of `s` share `rec`'s identity tuple.
pub open spec fn count_identity(s: Seq<PeerRecord>, rec: PeerRecord) -> nat
    decreases s.len(),
{
    if s.len() == 0 {
        0
    } else {
        count_identity(s.drop_last(), rec) + if same_identity(s.last(), rec) {
            1nat
        } else {
            0nat
        }
    }
}

/// Insert-or-replace: a record with `rec`'s identity is overwritten in
/// place; otherwise `rec` is appended.
pub open spec fn upsert_model(s: Seq<PeerRecord>, rec: PeerRecord) -> Seq<PeerRecord> {
    if exists|j: int| 0 <= j < s.len() && same_identity(s[j], rec) {
        s.update(choose|j: int| 0 <= j < s.len() && same_identity(s[j], rec), rec)
    } else {
        s.push(rec)
    }
}

/// Is `r` a member of the swarm of `info_hash`, on the seeder side
/// (`remaining == 0`) or the leecher side (`remaining > 0`)?
pub open spec fn matches_swarm(r: PeerRecord, info_hash: Seq<u8>, seed: bool) -> bool {
    r.info_hash@ == info_hash && if seed {
        r.remaining == 0
    } else {
        r.remaining > 0
    }
}

/// The distinct `(address, port)` pairs among the matching records of
/// `s`, in order of first occurrence.
pub open spec fn groups(s: Seq<PeerRecord>, info_hash: Seq<u8>, seed: bool) -> Seq<
    (PeerAddr, u16),
>
    decreases s.len(),
{
    if s.len() == 0 {
        Seq::empty()
    } else {
        let g = groups(s.drop_last(), info_hash, seed);
        let r = s.last();
        if matches_swarm(r, info_hash, seed) && !g.contains((r.addr, r.port)) {
            g.push((r.addr, r.port))
        } else {
            g
        }
    }
}

/// The size of one group: how many matching records of `s` announce
/// from this `(address, port)` pair.
pub open spec fn group_count(
    s: Seq<PeerRecord>,
    info_hash: Seq<u8>,
    seed: bool,
    addr: PeerAddr,
    port: u16,
) -> nat
    decreases s.len(),
{
    if s.len() == 0 {
        0
    } else {
        group_count(s.drop_last(), info_hash, seed, addr, port) + if matches_swarm(
            s.last(),
            info_hash,
            seed,
        ) && s.last().addr == addr && s.last().port == port {
            1nat
        } else {
            0nat
        }
    }
}

/// The largest group size among the listed pairs, `0` for none.
pub open spec fn max_over(
    gs: Seq<(PeerAddr, u16)>,
    s: Seq<PeerRecord>,
    info_hash: Seq<u8>,
    seed: bool,
) -> int
    decreases gs.len(),
{
    if gs.len() == 0 {
        0
    } else {
        let m = max_over(gs.drop_last(), s, info_hash, seed);
        let c = group_count(s, info_hash, seed, gs.last().0, gs.last().1) as int;
        if c > m {
            c
        } else {
            m
        }
    }
}

/// The largest group size on one side of the swarm of `info_hash`.
/// The tracker reports this group-size maximum as its seeder or
/// leecher count, not a total over all distinct peers.
pub open spec fn max_group(s: Seq<PeerRecord>, info_hash: Seq<u8>, seed: bool) -> int {
    max_over(groups(s, info_hash, seed), s, info_hash, seed)
}

/// No group outgrows the store itself.
pub proof fn lemma_group_count_le_len(
    s: Seq<PeerRecord>,
    info_hash: Seq<u8>,
    seed: bool,
    addr: PeerAddr,
    port: u16,
)
    ensures
        group_count(s, info_hash, seed, addr, port) <= s.len(),
    decreases s.len(),
{
    if s.len() > 0 {
        lemma_group_count_le_len(s.drop_last(), info_hash, seed, addr, port);
    }
}

/// Compare two byte strings for equality.
pub fn bytes_eq(a: &Vec<u8>, b: &Vec<u8>) -> (r: bool)
    ensures
        r == (a@ == b@),
{
    if a.len() != b.len() {
        return false;
    }
    let mut i: usize = 0;
    while i < a.len()
        invariant
            a@.len() == b@.len(),
            i <= a@.len(),
            forall|k: int| 0 <= k < i ==> a@[k] == b@[k],
        decreases a@.len() - i,
    {
        if a[i] != b[i] {
            return false;
        }
        i += 1;
    }
    proof {
        assert(a@ =~= b@);
    }
    true
}

/// Does this record match the swarm side, with this pair?
fn matches_rec(r: &PeerRecord, info_hash: &Vec<u8>, seed: bool) -> (b: bool)
    ensures
        b == matches_swarm(*r, info_hash@, seed),
{
    bytes_eq(&r.info_hash, info_hash) && (if seed {
        r.remaining == 0
    } else {
        r.remaining > 0
    })
}

/// Is the pair already listed?
fn contains_pair(gs: &Vec<(PeerAddr, u16)>, addr: PeerAddr, port: u16) -> (b: bool)
    ensures
        b == gs@.contains((addr, port)),
{
    let mut k: usize = 0;
    while k < gs.len()
        invariant
            k <= gs@.len(),
            forall|m: int| 0 <= m < k ==> gs@[m] != (addr, port),
        decreases gs@.len() - k,
    {
        if gs[k].0 == addr && gs[k].1 == port {
            assert(gs@[k as int] == (addr, port));
            return true;
        }
        k += 1;
    }
    proof {
        if gs@.contains((addr, port)) {
            let m = choose|m: int| 0 <= m < gs@.len() && gs@[m] == (addr, port);
            assert(false);
        }
    }
    false
}

/// Count the matching records that announce from this pair.
fn count_pair(
    records: &Vec<PeerRecord>,
    info_hash: &Vec<u8>,
    seed: bool,
    addr: PeerAddr,
    port: u16,
) -> (c: usize)
    ensures
        c == group_count(records@, info_hash@, seed, addr, port),
{
    let mut c: usize = 0;
    let mut i: usize = 0;
    while i < records.len()
        invariant
            i <= records@.len(),
            c == group_count(records@.subrange(0, i as int), info_hash@, seed, addr, port),
        decreases records@.len() - i,
    {
        proof {
            lemma_group_count_le_len(
                records@.subrange(0, i as int),
                info_hash@,
                seed,
                addr,
                port,
            );
        }
        let keep = matches_rec(&records[i], info_hash, seed) && records[i].addr == addr
            && records[i].port == port;
        proof {
            let prev = records@.subrange(0, i as int);
            let cur = records@.subrange(0, i + 1 as int);
            assert(cur.drop_last() =~= prev);
            assert(cur.last() == records@[i as int]);
        }
        if keep {
            c += 1;
        }
        i += 1;
    }
    proof {
        assert(records@.subrange(0, records@.len() as int) =~= records@);
    }
    c
}

/// One side of the swarm listing: the distinct pairs in order of first
/// occurrence, and the largest group size among them.
fn swarm_groups(records: &Vec<PeerRecord>, info_hash: &Vec<u8>, seed: bool) -> (r: (
    Vec<(PeerAddr, u16)>,
    i32,
))
    requires
        records@.len() <= 0x7fff_ffff,
    ensures
        r.0@ == groups(records@, info_hash@, seed),
        r.1 as int == max_group(records@, info_hash@, seed),
{
    let mut gs: Vec<(PeerAddr, u16)> = Vec::new();
    let mut i: usize = 0;
    while i < records.len()
        invariant
            i <= records@.len(),
            gs@ == groups(records@.subrange(0, i as int), info_hash@, seed),
        decreases records@.len() - i,
    {
        proof {
            let prev = records@.subrange(0, i as int);
            let cur = records@.subrange(0, i + 1 as int);
            assert(cur.drop_last() =~= prev);
            assert(cur.last() == records@[i as int]);
        }
        let r = &records[i];
        if matches_rec(r, info_hash, seed) && !contains_pair(&gs, r.addr, r.port) {
            let pair = (r.addr, r.port);
            gs.push(pair);
        }
        i += 1;
    }
    proof {
        assert(records@.subrange(0, records@.len() as int) =~= records@);
    }
    let mut m: i32 = 0;
    let mut j: usize = 0;
    while j < gs.len()
        invariant
            j <= gs@.len(),
            gs@ == groups(records@, info_hash@, seed),
            records@.len() <= 0x7fff_ffff,
            0 <= m,
            m as int == max_over(gs@.subrange(0, j as int), records@, info_hash@, seed),
        decreases gs@.len() - j,
    {
        let c = count_pair(records, info_hash, seed, gs[j].0, gs[j].1);
        proof {
            lemma_group_count_le_len(records@, info_hash@, seed, gs@[j as int].0, gs@[j as int].1);
            let prev = gs@.subrange(0, j as int);
            let cur = gs@.subrange(0, j + 1 as int);
            assert(cur.drop_last() =~= prev);
            assert(cur.last() == gs@[j as int]);
        }
        let ci: i32 = c as i32;
        if ci > m {
            m = ci;
        }
        j += 1;
    }
    proof {
        assert(gs@.subrange(0, gs@.len() as int) =~= gs@);
    }
    (gs, m)
}

/// The swarm store itself: the owned collection of peer records. Its
/// abstract value is the sequence of records it holds.
pub struct SwarmStore {
    records: Vec<PeerRecord>,
}

impl View for SwarmStore {
    type V = Seq<PeerRecord>;

    closed spec fn view(&self) -> Seq<PeerRecord> {
        self.records@
    }
}

impl SwarmStore {
    /// A fresh, empty store. Creating the backing state is idempotent:
    /// every fresh store is the same empty store.
    pub fn new() -> (s: SwarmStore)
        ensures
            s@ == Seq::<PeerRecord>::empty(),
            wf_records(s@),
    {
        SwarmStore { records: Vec::new() }
    }

    /// How many peer records the store holds.
    pub fn len(&self) -> (n: usize)
        ensures
            n == self@.len(),
    {
        self.records.len()
    }

    /// The record at a position of the store.
    pub fn record_at(&self, i: usize) -> (r: &PeerRecord)
        requires
            i < self@.len(),
        ensures
            *r == self@[i as int],
    {
        &self.records[i]
    }

    /// The index of the record carrying the given identity tuple, if
    /// one is held.
    fn find_record(
        &self,
        info_hash: &Vec<u8>,
        addr: PeerAddr,
        port: u16,
        peer_id: &Vec<u8>,
    ) -> (r: Option<usize>)
        ensures
            r matches Some(i) ==> 0 <= i < self@.len() && is_identity(
                self@[i as int],
                info_hash@,
                addr,
                port,
                peer_id@,
            ),
            r is None ==> forall|k: int|
                0 <= k < self@.len() ==> !is_identity(self@[k], info_hash@, addr, port, peer_id@),
    {
        let mut i: usize = 0;
        while i < self.records.len()
            invariant
                i <= self@.len(),
                forall|k: int|
                    0 <= k < i ==> !is_identity(self@[k], info_hash@, addr, port, peer_id@),
            decreases self@.len() - i,
        {
            if bytes_eq(&self.records[i].info_hash, info_hash) && self.records[i].addr == addr
                && self.records[i].port == port && bytes_eq(&self.records[i].peer_id, peer_id) {
                return Some(i);
            }
            i += 1;
        }
        None
    }

    /// Insert a new peer record or replace the one with the same
    /// identity tuple, setting `last_active` to `now`.
    pub fn upsert(
        &mut self,
        info_hash: Vec<u8>,
        addr: PeerAddr,
        port: u16,
        peer_id: Vec<u8>,
        remaining: i64,
        now: i64,
    ) -> (r: Result<(), StoreError>)
        requires
            wf_records(old(self)@),
        ensures
            r is Ok,
            wf_records(final(self)@),
            final(self)@ == upsert_model(
                old(self)@,
                (PeerRecord { info_hash, addr, port, peer_id, remaining, last_active: now }),
            ),
    {
        let ghost grec = PeerRecord { info_hash, addr, port, peer_id, remaining, last_active: now };
        let found = self.find_record(&info_hash, addr, port, &peer_id);
        match found {
            Some(i) => {
                let rec = PeerRecord { info_hash, addr, port, peer_id, remaining, last_active: now };
                self.records[i] = rec;
                proof {
                    let s = old(self)@;
                    assert(same_identity(s[i as int], grec));
                    assert(exists|j: int| 0 <= j < s.len() && same_identity(s[j], grec));
                    let j = choose|j: int| 0 <= j < s.len() && same_identity(s[j], grec);
                    if j < i {
                        assert(same_identity(s[j], s[i as int]));
                        assert(!same_identity(s[j], s[i as int]));
                    } else if i < j {
                        assert(same_identity(s[i as int], s[j]));
                        assert(!same_identity(s[i as int], s[j]));
                    }
                    assert(j == i);
                    assert(self@ =~= upsert_model(s, grec));
                    assert forall|p: int, q: int| 0 <= p < q < self@.len() implies !same_identity(
                        self@[p],
                        self@[q],
                    ) by {
                        if p != i && q != i {
                            assert(!same_identity(s[p], s[q]));
                        } else if p == i {
                            assert(!same_identity(s[p], s[q]));
                            assert(same_identity(self@[p], s[p]));
                        } else {
                            assert(!same_identity(s[p], s[q]));
                            assert(same_identity(self@[q], s[q]));
                        }
                    }
                }
                Ok(())
            },
            None => {
                let rec = PeerRecord { info_hash, addr, port, peer_id, remaining, last_active: now };
                self.records.push(rec);
                proof {
                    let s = old(self)@;
                    assert(forall|j: int| 0 <= j < s.len() ==> !same_identity(s[j], grec));
                    assert(self@ =~= upsert_model(s, grec));
                    assert forall|p: int, q: int| 0 <= p < q < self@.len() implies !same_identity(
                        self@[p],
                        self@[q],
                    ) by {
                        if q < s.len() {
                            assert(!same_identity(s[p], s[q]));
                        } else {
                            assert(self@[q] == grec);
                            assert(!same_identity(s[p], grec));
                        }
                    }
                }
                Ok(())
            },
        }
    }
    /// The swarm listing for an info-hash: one `(address, port)` entry
    /// per group of current records, seeder-side groups first, then
    /// leecher-side groups, each side in order of first occurrence;
    /// and the group-size maxima reported as the seeder and leecher
    /// counts.
    pub fn swarm_for(&self, info_hash: &Vec<u8>) -> (r: (Vec<(PeerAddr, u16)>, i32, i32))
        requires
            self@.len() <= 0x7fff_ffff,
        ensures
            r.0@ == groups(self@, info_hash@, true) + groups(self@, info_hash@, false),
            r.1 as int == max_group(self@, info_hash@, true),
            r.2 as int == max_group(self@, info_hash@, false),
    {
        let (mut peers, seeders) = swarm_groups(&self.records, info_hash, true);
        let (mut leech_side, leechers) = swarm_groups(&self.records, info_hash, false);
        peers.append(&mut leech_side);
        (peers, seeders, leechers)
    }

    /// Delete every record whose `last_active` lies more than
    /// `older_than` seconds before `now`, and report how many went.
    pub fn prune(&mut self, now: i64, older_than: i64) -> (removed: usize)
        requires
            wf_records(old(self)@),
        ensures
            wf_records(final(self)@),
            final(self)@ == prune_model(old(self)@, now, older_than),
            removed == old(self)@.len() - final(self)@.len(),
            final(self)@.len() <= old(self)@.len(),
    {
        let ghost orig = self.records@;
        let n0 = self.records.len();
        let mut i: usize = 0;
        let ghost mut k: int = 0;
        let mut removed: usize = 0;
        while i < self.records.len()
            invariant
                0 <= k <= orig.len(),
                orig.len() == n0,
                removed <= k,
                wf_records(orig),
                self.records@ =~= prune_model(orig.subrange(0, k), now, older_than)
                    + orig.subrange(k, orig.len() as int),
                i == prune_model(orig.subrange(0, k), now, older_than).len(),
                removed == k - i,
            decreases self.records@.len() - i,
        {
            proof {
                let prevpre = orig.subrange(0, k);
                let curpre = orig.subrange(0, k + 1);
                assert(curpre.drop_last() =~= prevpre);
                assert(curpre.last() == orig[k]);
                assert(self.records@[i as int] == orig[k]);
                lemma_prune_model_len(prevpre, now, older_than);
                lemma_prune_model_len(orig, now, older_than);
            }
            let stale = {
                let r = &self.records[i];
                (now as i128) - (r.last_active as i128) > (older_than as i128)
            };
            if stale {
                let _ = self.records.remove(i);
                removed += 1;
                proof {
                    let pruned = prune_model(orig.subrange(0, k), now, older_than);
                    assert(self.records@ =~= pruned + orig.subrange(
                        k + 1,
                        orig.len() as int,
                    ));
                }
            } else {
                i += 1;
                proof {
                    let pruned = prune_model(orig.subrange(0, k), now, older_than);
                    assert(self.records@ =~= (pruned.push(orig[k])) + orig.subrange(
                        k + 1,
                        orig.len() as int,
                    ));
                }
            }
            proof {
                k = k + 1;
            }
        }
        proof {
            assert(orig.subrange(0, k) =~= orig);
            assert(orig.subrange(k, orig.len() as int) =~= Seq::<PeerRecord>::empty());
            assert(self.records@ =~= prune_model(orig, now, older_than));
            lemma_prune_model_wf(orig, now, older_than);
        }
        removed
    }
}

/// What pruning keeps: exactly the records no staler than the
/// threshold, in their stored order.
pub open spec fn prune_model(s: Seq<PeerRecord>, now: i64, older_than: i64) -> Seq<PeerRecord>
    decreases s.len(),
{
    if s.len() == 0 {
        s
    } else {
        let p = prune_model(s.drop_last(), now, older_than);
        if now - s.last().last_active > older_than {
            p
        } else {
            p.push(s.last())
        }
    }
}

/// Pruning never grows the store.
pub proof fn lemma_prune_model_len(s: Seq<PeerRecord>, now: i64, older_than: i64)
    ensures
        prune_model(s, now, older_than).len() <= s.len(),
    decreases s.len(),
{
    if s.len() > 0 {
        lemma_prune_model_len(s.drop_last(), now, older_than);
    }
}

/// Every record pruning keeps stood somewhere in the store before.
pub proof fn lemma_prune_model_elems(s: Seq<PeerRecord>, now: i64, older_than: i64)
    ensures
        forall|i: int|
            0 <= i < prune_model(s, now, older_than).len() ==> exists|oi: int|
                0 <= oi < s.len() && #[trigger] s[oi] == #[trigger] prune_model(
                    s,
                    now,
                    older_than,
                )[i],
    decreases s.len(),
{
    let p = prune_model(s, now, older_than);
    if s.len() > 0 {
        lemma_prune_model_elems(s.drop_last(), now, older_than);
        let p1 = prune_model(s.drop_last(), now, older_than);
        assert forall|i: int| 0 <= i < p.len() implies exists|oi: int|
            0 <= oi < s.len() && #[trigger] s[oi] == #[trigger] p[i] by {
            if i < p1.len() {
                let oi = choose|oi: int| 0 <= oi < s.drop_last().len() && s.drop_last()[oi]
                    == p1[i];
                assert(s[oi] == p[i]);
            } else {
                assert(s[s.len() - 1] == p[i]);
            }
        }
    }
}

/// Records pruning keeps stood in the store before, so the
/// identity-uniqueness invariant survives pruning.
pub proof fn lemma_prune_model_wf(s: Seq<PeerRecord>, now: i64, older_than: i64)
    requires
        wf_records(s),
    ensures
        wf_records(prune_model(s, now, older_than)),
    decreases s.len(),
{
    if s.len() > 0 {
        assert(wf_records(s.drop_last()));
        lemma_prune_model_wf(s.drop_last(), now, older_than);
        lemma_prune_model_elems(s.drop_last(), now, older_than);
        let p = prune_model(s, now, older_than);
        let p1 = prune_model(s.drop_last(), now, older_than);
        if !(now - s.last().last_active > older_than) {
            assert forall|i: int, j: int| 0 <= i < j < p.len() implies !same_identity(
                p[i],
                p[j],
            ) by {
                if j < p1.len() {
                    assert(!same_identity(p1[i], p1[j]));
                } else {
                    let oi = choose|oi: int| 0 <= oi < s.drop_last().len() && s.drop_last()[oi]
                        == p1[i];
                    assert(!same_identity(s[oi], s[s.len() - 1]));
                }
            }
        }
    }
}

/// A sequence without a record of `rec`'s identity counts none.
proof fn lemma_count_identity_zero(s: Seq<PeerRecord>, rec: PeerRecord)
    requires
        forall|p: int| 0 <= p < s.len() ==> !same_identity(s[p], rec),
    ensures
        count_identity(s, rec) == 0,
    decreases s.len(),
{
    if s.len() > 0 {
        lemma_count_identity_zero(s.drop_last(), rec);
    }
}

/// A sequence whose only record of `rec`'s identity stands at `j`
/// counts exactly one.
proof fn lemma_count_identity_single(s: Seq<PeerRecord>, rec: PeerRecord, j: int)
    requires
        0 <= j < s.len(),
        same_identity(s[j], rec),
        forall|p: int| 0 <= p < s.len() && p != j ==> !same_identity(s[p], rec),
    ensures
        count_identity(s, rec) == 1,
    decreases s.len(),
{
    if j == s.len() - 1 {
        lemma_count_identity_zero(s.drop_last(), rec);
    } else {
        lemma_count_identity_single(s.drop_last(), rec, j);
    }
}

/// An upsert leaves exactly one record of the upserted identity, and
/// it is the upserted record itself.
pub proof fn lemma_upsert_single(s: Seq<PeerRecord>, rec: PeerRecord)
    requires
        wf_records(s),
    ensures
        count_identity(upsert_model(s, rec), rec) == 1,
        exists|j: int|
            0 <= j < upsert_model(s, rec).len() && #[trigger] upsert_model(s, rec)[j] == rec,
        wf_records(upsert_model(s, rec)),
{
    let s2 = upsert_model(s, rec);
    if exists|j: int| 0 <= j < s.len() && same_identity(s[j], rec) {
        let j = choose|j: int| 0 <= j < s.len() && same_identity(s[j], rec);
        assert(s2 == s.update(j, rec));
        assert(s2[j] == rec);
        assert(same_identity(s2[j], rec));
        assert forall|p: int| 0 <= p < s2.len() && p != j implies !same_identity(s2[p], rec) by {
            assert(s2[p] == s[p]);
            if same_identity(s[p], rec) {
                if p < j {
                    assert(!same_identity(s[p], s[j]));
                } else {
                    assert(!same_identity(s[j], s[p]));
                }
                assert(false);
            }
        }
        lemma_count_identity_single(s2, rec, j);
        assert forall|p: int, q: int| 0 <= p < q < s2.len() implies !same_identity(
            s2[p],
            s2[q],
        ) by {
            assert(!same_identity(s[p], s[q]));
            if p == j {
                assert(same_identity(s[p], rec));
            } else if q == j {
                assert(same_identity(s[q], rec));
            }
        }
    } else {
        assert(s2 == s.push(rec));
        assert(s2[s.len() as int] == rec);
        assert forall|p: int| 0 <= p < s2.len() && p != s.len() implies !same_identity(
            s2[p],
            rec,
        ) by {
            assert(s2[p] == s[p]);
        }
        lemma_count_identity_single(s2, rec, s.len() as int);
        assert forall|p: int, q: int| 0 <= p < q < s2.len() implies !same_identity(
            s2[p],
            s2[q],
        ) by {
            if q < s.len() {
                assert(!same_identity(s[p], s[q]));
            } else {
                assert(s2[q] == rec && s2[p] == s[p]);
            }
        }
    }
}

/// Repeated upserts with an unchanged identity tuple leave exactly one
/// record for that tuple, and the record is the later call's, so its
/// `last_active` is the later call's clock reading.
pub proof fn lemma_upsert_idempotent(s: Seq<PeerRecord>, r1: PeerRecord, r2: PeerRecord)
    requires
        wf_records(s),
        same_identity(r1, r2),
    ensures
        count_identity(upsert_model(upsert_model(s, r1), r2), r2) == 1,
        exists|j: int|
            0 <= j < upsert_model(upsert_model(s, r1), r2).len()
                && #[trigger] upsert_model(upsert_model(s, r1), r2)[j] == r2,
{
    lemma_upsert_single(s, r1);
    lemma_upsert_single(upsert_model(s, r1), r2);
}

/// Any matching record's pair is listed among the groups.
proof fn lemma_groups_complete(s: Seq<PeerRecord>, info_hash: Seq<u8>, seed: bool, i: int)
    requires
        0 <= i < s.len(),
        matches_swarm(s[i], info_hash, seed),
    ensures
        groups(s, info_hash, seed).contains((s[i].addr, s[i].port)),
    decreases s.len(),
{
    let g1 = groups(s.drop_last(), info_hash, seed);
    let r = s.last();
    if i == s.len() - 1 {
        if !g1.contains((r.addr, r.port)) {
            assert(groups(s, info_hash, seed).last() == (r.addr, r.port));
        }
    } else {
        lemma_groups_complete(s.drop_last(), info_hash, seed, i);
        let pair = (s[i].addr, s[i].port);
        let w = choose|w: int| 0 <= w < g1.len() && g1[w] == pair;
        if matches_swarm(r, info_hash, seed) && !g1.contains((r.addr, r.port)) {
            assert(groups(s, info_hash, seed)[w] == pair);
        } else {
            assert(groups(s, info_hash, seed)[w] == pair);
        }
    }
}

/// Every listed pair comes from some matching record.
proof fn lemma_groups_sound(s: Seq<PeerRecord>, info_hash: Seq<u8>, seed: bool)
    ensures
        forall|w: int|
            0 <= w < groups(s, info_hash, seed).len() ==> exists|i: int|
                0 <= i < s.len() && matches_swarm(#[trigger] s[i], info_hash, seed) && (
                s[i].addr,
                s[i].port,
                ) == #[trigger] groups(s, info_hash, seed)[w],
    decreases s.len(),
{
    if s.len() > 0 {
        lemma_groups_sound(s.drop_last(), info_hash, seed);
        let g = groups(s, info_hash, seed);
        let g1 = groups(s.drop_last(), info_hash, seed);
        assert forall|w: int| 0 <= w < g.len() implies exists|i: int|
            0 <= i < s.len() && matches_swarm(#[trigger] s[i], info_hash, seed) && (
            s[i].addr,
            s[i].port,
            ) == #[trigger] g[w] by {
            if w < g1.len() {
                let i = choose|i: int|
                    0 <= i < s.drop_last().len() && matches_swarm(
                        s.drop_last()[i],
                        info_hash,
                        seed,
                    ) && (s.drop_last()[i].addr, s.drop_last()[i].port) == g1[w];
                assert(s[i] == s.drop_last()[i]);
                assert(g[w] == g1[w]);
            } else {
                assert(g[w] == (s.last().addr, s.last().port));
                assert(s[s.len() - 1] == s.last());
            }
        }
    }
}

/// A matching record makes its group at least one strong.
proof fn lemma_group_count_pos(s: Seq<PeerRecord>, info_hash: Seq<u8>, seed: bool, i: int)
    requires
        0 <= i < s.len(),
        matches_swarm(s[i], info_hash, seed),
    ensures
        group_count(s, info_hash, seed, s[i].addr, s[i].port) >= 1,
    decreases s.len(),
{
    if i < s.len() - 1 {
        lemma_group_count_pos(s.drop_last(), info_hash, seed, i);
    }
}

/// The reported maximum is no smaller than any listed group's size.
proof fn lemma_max_over_ge(
    gs: Seq<(PeerAddr, u16)>,
    s: Seq<PeerRecord>,
    info_hash: Seq<u8>,
    seed: bool,
    w: int,
)
    requires
        0 <= w < gs.len(),
    ensures
        max_over(gs, s, info_hash, seed) >= group_count(s, info_hash, seed, gs[w].0, gs[w].1),
    decreases gs.len(),
{
    if w < gs.len() - 1 {
        lemma_max_over_ge(gs.drop_last(), s, info_hash, seed, w);
    }
}

/// Immediately after an announce with `remaining` zero, the swarm
/// listing for that info-hash includes the announcing peer's
/// `(address, port)` pair and reports at least one seeder.
pub proof fn lemma_seeder_counted(s: Seq<PeerRecord>, rec: PeerRecord)
    requires
        wf_records(s),
        rec.remaining == 0,
    ensures
        groups(upsert_model(s, rec), rec.info_hash@, true).contains((rec.addr, rec.port)),
        max_group(upsert_model(s, rec), rec.info_hash@, true) >= 1,
{
    lemma_upsert_single(s, rec);
    let s2 = upsert_model(s, rec);
    let j = choose|j: int| 0 <= j < s2.len() && s2[j] == rec;
    assert(matches_swarm(s2[j], rec.info_hash@, true));
    lemma_groups_complete(s2, rec.info_hash@, true, j);
    lemma_group_count_pos(s2, rec.info_hash@, true, j);
    let g = groups(s2, rec.info_hash@, true);
    let w = choose|w: int| 0 <= w < g.len() && g[w] == (rec.addr, rec.port);
    lemma_max_over_ge(g, s2, rec.info_hash@, true, w);
}

/// Every record pruning keeps is within the staleness threshold.
proof fn lemma_prune_model_fresh(s: Seq<PeerRecord>, now: i64, older_than: i64)
    ensures
        forall|i: int|
            0 <= i < prune_model(s, now, older_than).len() ==> now - #[trigger] prune_model(
                s,
                now,
                older_than,
            )[i].last_active <= older_than,
    decreases s.len(),
{
    if s.len() > 0 {
        lemma_prune_model_fresh(s.drop_last(), now, older_than);
    }
}

/// A record within the staleness threshold survives a prune.
proof fn lemma_prune_model_keeps(s: Seq<PeerRecord>, now: i64, older_than: i64, i: int)
    requires
        0 <= i < s.len(),
        now - s[i].last_active <= older_than,
    ensures
        exists|j: int|
            0 <= j < prune_model(s, now, older_than).len() && #[trigger] prune_model(
                s,
                now,
                older_than,
            )[j] == s[i],
    decreases s.len(),
{
    let p = prune_model(s, now, older_than);
    let p1 = prune_model(s.drop_last(), now, older_than);
    if i == s.len() - 1 {
        assert(p[p.len() - 1] == s[i]);
    } else {
        lemma_prune_model_keeps(s.drop_last(), now, older_than, i);
        let j = choose|j: int| 0 <= j < p1.len() && p1[j] == s.drop_last()[i];
        assert(p[j] == s[i]);
    }
}

/// After a prune, a pair all of whose matching records had gone stale
/// is absent from the swarm listing, while a matching record within
/// the threshold still contributes its pair.
pub proof fn lemma_prune_swarm(
    s: Seq<PeerRecord>,
    now: i64,
    older_than: i64,
    info_hash: Seq<u8>,
    seed: bool,
    addr: PeerAddr,
    port: u16,
)
    requires
        forall|p: int|
            0 <= p < s.len() && matches_swarm(#[trigger] s[p], info_hash, seed) && s[p].addr
                == addr && s[p].port == port ==> now - s[p].last_active > older_than,
    ensures
        !groups(prune_model(s, now, older_than), info_hash, seed).contains((addr, port)),
{
    let pr = prune_model(s, now, older_than);
    if groups(pr, info_hash, seed).contains((addr, port)) {
        lemma_groups_sound(pr, info_hash, seed);
        let w = choose|w: int|
            0 <= w < groups(pr, info_hash, seed).len() && groups(pr, info_hash, seed)[w] == (
            addr,
            port,
            );
        let i = choose|i: int|
            0 <= i < pr.len() && matches_swarm(#[trigger] pr[i], info_hash, seed) && (
            pr[i].addr,
            pr[i].port,
            ) == (addr, port);
        lemma_prune_model_fresh(s, now, older_than);
        lemma_prune_model_elems(s, now, older_than);
        let oi = choose|oi: int| 0 <= oi < s.len() && #[trigger] s[oi] == pr[i];
        assert(now - s[oi].last_active > older_than);
        assert(false);
    }
}

/// A matching record within the threshold survives a prune and still
/// stands in the swarm listing.
pub proof fn lemma_prune_keeps_swarm(
    s: Seq<PeerRecord>,
    now: i64,
    older_than: i64,
    info_hash: Seq<u8>,
    seed: bool,
    i: int,
)
    requires
        0 <= i < s.len(),
        matches_swarm(s[i], info_hash, seed),
        now - s[i].last_active <= older_than,
    ensures
        groups(prune_model(s, now, older_than), info_hash, seed).contains((s[i].addr, s[i].port)),
{
    lemma_prune_model_keeps(s, now, older_than, i);
    let pr = prune_model(s, now, older_than);
    let j = choose|j: int| 0 <= j < pr.len() && #[trigger] pr[j] == s[i];
    lemma_groups_complete(pr, info_hash, seed, j);
}

} // verus!
