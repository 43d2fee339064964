//! Reconciliation: content fingerprints and the registry of live workers.
//!
//! Each reconciliation cycle enumerates the store, fingerprints every enabled
//! target and diffs it against the registry. The registry decides, per
//! target, whether a worker must be spawned, updated or merely marked as
//! still present; a sweep at the end of the cycle removes every entry whose
//! target was not seen, and the caller cancels those workers.

use vstd::prelude::*;
use vstd::utf8::encode_utf8;

use crate::db::TargetIterObject;
use crate::db::TargetView;

verus! {

/// CRC-32/CKSUM checksum of a byte sequence, as `crc_fast` computes it.
pub uninterp spec fn crc32_cksum_of(bytes: Seq<u8>) -> u64;

/// Relies on `crc_fast::checksum` with the CRC-32/CKSUM algorithm: the
/// checksum is a function of the input bytes alone.
#[verifier::external_body]
fn crc32_cksum(data: &Vec<u8>) -> (r: u64)
    ensures
        r == crc32_cksum_of(data@),
{
    crc_fast::checksum(crc_fast::CrcAlgorithm::Crc32Cksum, data.as_slice())
}

/// The sixteen bytes of a 128-bit identifier, most significant first.
pub open spec fn be_bytes_u128(x: u128) -> Seq<u8> {
    Seq::new(16, |i: int| (((x >> (((15 - i) * 8) as u128)) & 0xff) as u8))
}

/// The four bytes of a 32-bit value, least significant first.
pub open spec fn le_bytes_u32(x: u32) -> Seq<u8> {
    Seq::new(4, |i: int| (((x >> ((i * 8) as u32)) & 0xff) as u8))
}

/// The byte string whose checksum is a target's fingerprint: every mutable,
/// behaviour-affecting field in a fixed order. The enabled flag is absent on
/// purpose: disabling is handled by the sweep, not as a content change.
pub open spec fn fingerprint_bytes(t: TargetView) -> Seq<u8> {
    be_bytes_u128(t.id) + seq![t.state.spec_code() as u8] + encode_utf8(t.name) + encode_utf8(
        t.address,
    ) + encode_utf8(t.ping_type) + le_bytes_u32(t.interval) + encode_utf8(t.metadata)
}

/// A target's content fingerprint: a 64-bit checksum used as a cheap equality
/// proxy for "did this target change since last cycle". Collisions are
/// tolerated as a documented approximation.
pub open spec fn target_fingerprint(t: TargetView) -> u64 {
    crc32_cksum_of(fingerprint_bytes(t))
}

fn push_be_bytes_u128(out: &mut Vec<u8>, x: u128)
    ensures
        final(out)@ == old(out)@ + be_bytes_u128(x),
{
    let ghost prefix = out@;
    for i in 0..16usize
        invariant
            out@ =~= prefix + be_bytes_u128(x).take(i as int),
    {
        let sh: u128 = ((15 - i) * 8) as u128;
        out.push(((x >> sh) & 0xff) as u8);
        proof {
            assert(out@ =~= prefix + be_bytes_u128(x).take(i + 1));
        }
    }
    proof {
        assert(out@ =~= prefix + be_bytes_u128(x));
    }
}

fn push_le_bytes_u32(out: &mut Vec<u8>, x: u32)
    ensures
        final(out)@ == old(out)@ + le_bytes_u32(x),
{
    let ghost prefix = out@;
    for i in 0..4usize
        invariant
            out@ =~= prefix + le_bytes_u32(x).take(i as int),
    {
        let sh: u32 = (i * 8) as u32;
        out.push(((x >> sh) & 0xff) as u8);
        proof {
            assert(out@ =~= prefix + le_bytes_u32(x).take(i + 1));
        }
    }
    proof {
        assert(out@ =~= prefix + le_bytes_u32(x));
    }
}

fn push_str_bytes(out: &mut Vec<u8>, s: &String)
    ensures
        final(out)@ == old(out)@ + encode_utf8(s@),
{
    let ghost prefix = out@;
    let bytes = s.as_str().as_bytes();
    let mut i: usize = 0;
    while i < bytes.len()
        invariant
            bytes@ == encode_utf8(s@),
            i <= bytes@.len(),
            out@ =~= prefix + bytes@.take(i as int),
        decreases bytes@.len() - i,
    {
        out.push(bytes[i]);
        proof {
            assert(out@ =~= prefix + bytes@.take(i + 1));
        }
        i = i + 1;
    }
    proof {
        assert(out@ =~= prefix + bytes@);
    }
}

impl TargetIterObject {
    /// Compute this target's content fingerprint.
    pub fn hash(&self) -> (r: u64)
        ensures
            r == target_fingerprint(self@),
    {
        let mut bytes: Vec<u8> = Vec::new();
        push_be_bytes_u128(&mut bytes, self.target_id);
        bytes.push(self.target_state.code() as u8);
        push_str_bytes(&mut bytes, &self.target_name);
        push_str_bytes(&mut bytes, &self.target_address);
        push_str_bytes(&mut bytes, &self.target_ping_type);
        push_le_bytes_u32(&mut bytes, self.target_interval);
        push_str_bytes(&mut bytes, &self.target_metadata);
        proof {
            assert(bytes@ =~= fingerprint_bytes(self@));
        }
        crc32_cksum(&bytes)
    }
}

/// Runtime record the reconciler keeps per live worker: the fingerprint it
/// was last configured with and the cycle in which its target was last seen.
#[derive(Clone, Copy, Debug, PartialEq, Eq, Structural)]
pub struct TargetKvEntry {
    pub checksum: u64,
    pub sync_counter: u64,
}

/// What the caller must do for one enumerated target after the registry has
/// taken it into account.
#[derive(Clone, Copy, Debug, PartialEq, Eq, Structural)]
pub enum SyncAction {
    /// The target is disabled: it was treated as absent and the registry was
    /// left untouched.
    Skipped,
    /// The target is new: spawn a worker for it.
    Spawned,
    /// The target changed: push the new configuration into its worker.
    Updated,
    /// The target is unchanged: nothing to do.
    Refreshed,
}

pub open spec fn distinct_ids(s: Seq<(u128, TargetKvEntry)>) -> bool {
    forall|i: int, j: int| 0 <= i < j < s.len() ==> s[i].0 != s[j].0
}

/// The mapping a sequence of keyed entries stands for; later entries win,
/// though the registry never holds two entries with one id.
pub open spec fn map_of(s: Seq<(u128, TargetKvEntry)>) -> Map<u128, TargetKvEntry>
    decreases s.len(),
{
    if s.len() == 0 {
        Map::empty()
    } else {
        map_of(s.drop_last()).insert(s.last().0, s.last().1)
    }
}

proof fn lemma_map_of_contains(s: Seq<(u128, TargetKvEntry)>, id: u128)
    ensures
        map_of(s).dom().contains(id) <==> exists|i: int| 0 <= i < s.len() && s[i].0 == id,
    decreases s.len(),
{
    if s.len() > 0 {
        lemma_map_of_contains(s.drop_last(), id);
        if map_of(s).dom().contains(id) {
            if s.last().0 == id {
                assert(s[s.len() - 1].0 == id);
            }
        }
        if exists|i: int| 0 <= i < s.len() && s[i].0 == id {
            let i = choose|i: int| 0 <= i < s.len() && s[i].0 == id;
            if i < s.len() - 1 {
                assert(s.drop_last()[i].0 == id);
            }
        }
    }
}

proof fn lemma_map_of_index(s: Seq<(u128, TargetKvEntry)>, i: int)
    requires
        distinct_ids(s),
        0 <= i < s.len(),
    ensures
        map_of(s).dom().contains(s[i].0),
        map_of(s)[s[i].0] == s[i].1,
    decreases s.len(),
{
    if i < s.len() - 1 {
        lemma_map_of_index(s.drop_last(), i);
        assert(s.drop_last()[i] == s[i]);
        assert(s.last().0 != s[i].0);
    }
}

proof fn lemma_map_of_update(s: Seq<(u128, TargetKvEntry)>, i: int, e: TargetKvEntry)
    requires
        distinct_ids(s),
        0 <= i < s.len(),
    ensures
        map_of(s.update(i, (s[i].0, e))) == map_of(s).insert(s[i].0, e),
    decreases s.len(),
{
    let su = s.update(i, (s[i].0, e));
    if i == s.len() - 1 {
        assert(su.drop_last() =~= s.drop_last());
        assert(map_of(su) =~= map_of(s).insert(s[i].0, e));
    } else {
        lemma_map_of_update(s.drop_last(), i, e);
        assert(su.drop_last() =~= s.drop_last().update(i, (s[i].0, e)));
        assert(su.last() == s.last());
        assert(s.last().0 != s[i].0);
        assert(map_of(su) =~= map_of(s).insert(s[i].0, e));
    }
}

/// One reconciliation decision: how the registry changes for one enumerated
/// target, and which action the caller owes its worker. A disabled target is
/// treated as absent; a new one is recorded with its fingerprint and the
/// current cycle; an unchanged one has its last-seen cycle refreshed. A
/// changed one asks for an update but leaves its entry untouched: the entry
/// is committed by [`Registry::record_update`] only once the new
/// configuration reached the worker.
pub open spec fn spec_observe(m: Map<u128, TargetKvEntry>, gen: u64, t: TargetView) -> (
    Map<u128, TargetKvEntry>,
    SyncAction,
) {
    if !t.enabled {
        (m, SyncAction::Skipped)
    } else if !m.dom().contains(t.id) {
        (
            m.insert(t.id, TargetKvEntry { checksum: target_fingerprint(t), sync_counter: gen }),
            SyncAction::Spawned,
        )
    } else if m[t.id].checksum == target_fingerprint(t) {
        (
            m.insert(t.id, TargetKvEntry { checksum: m[t.id].checksum, sync_counter: gen }),
            SyncAction::Refreshed,
        )
    } else {
        (m, SyncAction::Updated)
    }
}

/// What survives the end-of-cycle sweep: exactly the entries whose target
/// was seen in the cycle that just ended.
pub open spec fn swept(m: Map<u128, TargetKvEntry>, gen: u64) -> Map<u128, TargetKvEntry> {
    Map::new(|id: u128| m.dom().contains(id) && m[id].sync_counter == gen, |id: u128| m[id])
}

spec fn spec_kept(s: Seq<(u128, TargetKvEntry)>, gen: u64) -> Seq<(u128, TargetKvEntry)>
    decreases s.len(),
{
    if s.len() == 0 {
        Seq::empty()
    } else if s.last().1.sync_counter == gen {
        spec_kept(s.drop_last(), gen).push(s.last())
    } else {
        spec_kept(s.drop_last(), gen)
    }
}

spec fn spec_dropped(s: Seq<(u128, TargetKvEntry)>, gen: u64) -> Seq<u128>
    decreases s.len(),
{
    if s.len() == 0 {
        Seq::empty()
    } else if s.last().1.sync_counter == gen {
        spec_dropped(s.drop_last(), gen)
    } else {
        spec_dropped(s.drop_last(), gen).push(s.last().0)
    }
}

proof fn lemma_sweep(s: Seq<(u128, TargetKvEntry)>, gen: u64)
    requires
        distinct_ids(s),
    ensures
        distinct_ids(spec_kept(s, gen)),
        map_of(spec_kept(s, gen)) == swept(map_of(s), gen),
        spec_dropped(s, gen).no_duplicates(),
        forall|id: u128| #[trigger]
            spec_dropped(s, gen).contains(id) <==> (map_of(s).dom().contains(id) && map_of(
                s,
            )[id].sync_counter != gen),
    decreases s.len(),
{
    if s.len() == 0 {
        assert(map_of(spec_kept(s, gen)) =~= swept(map_of(s), gen));
    } else {
        let s1 = s.drop_last();
        let e = s.last();
        lemma_sweep(s1, gen);
        lemma_map_of_contains(s1, e.0);
        assert(forall|i: int| 0 <= i < s1.len() ==> s1[i] == s[i]);
        assert(!map_of(s1).dom().contains(e.0));
        if e.1.sync_counter == gen {
            let k = spec_kept(s1, gen).push(e);
            assert(k.drop_last() =~= spec_kept(s1, gen));
            assert(spec_kept(s, gen) == k);
            assert forall|i: int, j: int| 0 <= i < j < k.len() implies k[i].0 != k[j].0 by {
                if j == k.len() - 1 {
                    lemma_map_of_index(spec_kept(s1, gen), i);
                    assert(swept(map_of(s1), gen).dom().contains(k[i].0));
                }
            }
            assert(map_of(spec_kept(s, gen)) =~= swept(map_of(s), gen));
        } else {
            assert(map_of(spec_kept(s, gen)) =~= swept(map_of(s), gen));
            let d = spec_dropped(s1, gen).push(e.0);
            assert(spec_dropped(s, gen) == d);
            assert(!spec_dropped(s1, gen).contains(e.0));
            assert(forall|i: int| 0 <= i < d.len() - 1 ==> d[i] == spec_dropped(s1, gen)[i]);
            assert(d.drop_last() =~= spec_dropped(s1, gen));
            assert forall|id: u128| #[trigger] d.contains(id) implies (map_of(s).dom().contains(id)
                && map_of(s)[id].sync_counter != gen) by {
                assert(map_of(s) == map_of(s1).insert(e.0, e.1));
                if id == e.0 {
                    assert(map_of(s)[id] == e.1);
                } else {
                    let i = choose|i: int| 0 <= i < d.len() && d[i] == id;
                    assert(d[d.len() - 1] == e.0);
                    assert(i < d.len() - 1);
                    assert(spec_dropped(s1, gen)[i] == id);
                    assert(spec_dropped(s1, gen).contains(id));
                    assert(map_of(s1).dom().contains(id) && map_of(s1)[id].sync_counter != gen);
                }
            }
            assert forall|id: u128| (map_of(s).dom().contains(id) && map_of(s)[id].sync_counter
                != gen) implies #[trigger] d.contains(id) by {
                if id == e.0 {
                    assert(d[d.len() - 1] == id);
                } else {
                    assert(spec_dropped(s1, gen).contains(id));
                    let i = choose|i: int|
                        0 <= i < spec_dropped(s1, gen).len() && spec_dropped(s1, gen)[i] == id;
                    assert(d[i] == id);
                }
            }
        }
    }
}

/// The reconciler's registry of live workers, keyed by target id. It is the
/// only record of which workers run; all mutation happens on the
/// reconciliation loop.
pub struct Registry {
    entries: Vec<(u128, TargetKvEntry)>,
    sync_counter: u64,
}

impl View for Registry {
    type V = Map<u128, TargetKvEntry>;

    closed spec fn view(&self) -> Map<u128, TargetKvEntry> {
        map_of(self.entries@)
    }
}

impl Registry {
    /// No two entries share a target id.
    pub closed spec fn wf(&self) -> bool {
        distinct_ids(self.entries@)
    }

    /// The generation counter: the number of reconciliation cycles begun.
    pub closed spec fn gen(&self) -> u64 {
        self.sync_counter
    }

    /// An empty registry, before the first cycle.
    pub fn new() -> (r: Registry)
        ensures
            r.wf(),
            r@ == Map::<u128, TargetKvEntry>::empty(),
            r.gen() == 0,
    {
        Registry { entries: Vec::new(), sync_counter: 0 }
    }

    /// The current value of the generation counter.
    pub fn generation(&self) -> (g: u64)
        ensures
            g == self.gen(),
    {
        self.sync_counter
    }

    /// The number of live workers.
    pub fn len(&self) -> (n: usize)
        requires
            self.wf(),
        ensures
            self@.dom().finite(),
            n == self@.dom().len(),
    {
        proof {
            lemma_map_len(self.entries@);
        }
        self.entries.len()
    }

    fn find_index(&self, id: u128) -> (r: Option<usize>)
        ensures
            match r {
                Some(i) => i < self.entries@.len() && self.entries@[i as int].0 == id,
                None => forall|i: int| 0 <= i < self.entries@.len() ==> self.entries@[i].0 != id,
            },
    {
        let n = self.entries.len();
        let mut i: usize = 0;
        while i < n
            invariant
                n == self.entries@.len(),
                i <= n,
                forall|j: int| 0 <= j < i ==> self.entries@[j].0 != id,
            decreases n - i,
        {
            if self.entries[i].0 == id {
                return Some(i);
            }
            i = i + 1;
        }
        None
    }

    /// Start a reconciliation cycle: increment the generation counter. An
    /// entry still carrying an older generation after the full pass belongs
    /// to a target the latest enumeration did not show as enabled.
    pub fn begin_sync(&mut self)
        requires
            old(self).wf(),
            old(self).gen() < u64::MAX,
        ensures
            final(self).wf(),
            final(self)@ == old(self)@,
            final(self).gen() == old(self).gen() + 1,
    {
        self.sync_counter = self.sync_counter + 1;
    }

    /// Take one enumerated target into account and say what the caller owes
    /// its worker. The registry changes exactly as [`spec_observe`] says.
    pub fn observe_target(&mut self, t: &TargetIterObject) -> (a: SyncAction)
        requires
            old(self).wf(),
        ensures
            final(self).wf(),
            final(self).gen() == old(self).gen(),
            (final(self)@, a) == spec_observe(old(self)@, old(self).gen(), t@),
    {
        if !t.target_enabled {
            return SyncAction::Skipped;
        }
        let checksum = t.hash();
        let entry = TargetKvEntry { checksum, sync_counter: self.sync_counter };
        proof {
            lemma_map_of_contains(self.entries@, t@.id);
        }
        match self.find_index(t.target_id) {
            None => {
                self.entries.push((t.target_id, entry));
                proof {
                    assert(self.entries@.drop_last() =~= old(self).entries@);
                }
                SyncAction::Spawned
            },
            Some(i) => {
                proof {
                    lemma_map_of_index(self.entries@, i as int);
                }
                if self.entries[i].1.checksum == checksum {
                    proof {
                        lemma_map_of_update(self.entries@, i as int, entry);
                    }
                    self.entries[i] = (t.target_id, entry);
                    SyncAction::Refreshed
                } else {
                    SyncAction::Updated
                }
            },
        }
    }

    /// Commit a delivered configuration update: the worker now runs with the
    /// target's current content, so its entry carries the new fingerprint
    /// and the current cycle. This is called only once the handoff send
    /// succeeded; after a failed send the entry stays stale, the sweep tears
    /// it down, and the target is spawned afresh when next enumerated.
    pub fn record_update(&mut self, t: &TargetIterObject)
        requires
            old(self).wf(),
        ensures
            final(self).wf(),
            final(self).gen() == old(self).gen(),
            final(self)@ == old(self)@.insert(
                t@.id,
                TargetKvEntry {
                    checksum: target_fingerprint(t@),
                    sync_counter: old(self).gen(),
                },
            ),
    {
        let checksum = t.hash();
        let entry = TargetKvEntry { checksum, sync_counter: self.sync_counter };
        match self.find_index(t.target_id) {
            None => {
                proof {
                    lemma_map_of_contains(self.entries@, t@.id);
                }
                self.entries.push((t.target_id, entry));
                proof {
                    assert(self.entries@.drop_last() =~= old(self).entries@);
                }
            },
            Some(i) => {
                proof {
                    lemma_map_of_update(self.entries@, i as int, entry);
                }
                self.entries[i] = (t.target_id, entry);
            },
        }
    }

    /// End the cycle. After a complete enumeration, drop every entry whose
    /// target was not seen since the cycle began and hand their ids back, so
    /// the caller can cancel exactly those workers. After a failed or broken
    /// off enumeration nothing is dropped: the registry is left untouched,
    /// and previously running workers keep polling with stale but valid
    /// configuration until a later cycle succeeds.
    pub fn sweep(&mut self, enumeration_complete: bool) -> (removed: Vec<u128>)
        requires
            old(self).wf(),
        ensures
            final(self).wf(),
            final(self).gen() == old(self).gen(),
            enumeration_complete ==> final(self)@ == swept(old(self)@, old(self).gen()),
            enumeration_complete ==> removed@.no_duplicates(),
            enumeration_complete ==> forall|id: u128| #[trigger]
                removed@.contains(id) <==> (old(self)@.dom().contains(id) && old(
                    self,
                )@[id].sync_counter != old(self).gen()),
            !enumeration_complete ==> final(self)@ == old(self)@ && removed@ == Seq::<
                u128,
            >::empty(),
    {
        if !enumeration_complete {
            let removed: Vec<u128> = Vec::new();
            return removed;
        }
        let ghost s0 = self.entries@;
        let mut kept: Vec<(u128, TargetKvEntry)> = Vec::new();
        let mut removed: Vec<u128> = Vec::new();
        let n = self.entries.len();
        let mut i: usize = 0;
        while i < n
            invariant
                n == self.entries@.len(),
                s0 == self.entries@,
                i <= n,
                kept@ == spec_kept(s0.take(i as int), self.sync_counter),
                removed@ == spec_dropped(s0.take(i as int), self.sync_counter),
            decreases n - i,
        {
            let e = self.entries[i];
            proof {
                assert(s0.take(i + 1).drop_last() =~= s0.take(i as int));
                assert(s0.take(i + 1).last() == s0[i as int]);
            }
            if e.1.sync_counter == self.sync_counter {
                kept.push(e);
            } else {
                removed.push(e.0);
            }
            i = i + 1;
        }
        proof {
            assert(s0.take(n as int) =~= s0);
            lemma_sweep(s0, self.sync_counter);
        }
        self.entries = kept;
        removed
    }
}

proof fn lemma_map_len(s: Seq<(u128, TargetKvEntry)>)
    requires
        distinct_ids(s),
    ensures
        map_of(s).dom().finite(),
        map_of(s).dom().len() == s.len(),
    decreases s.len(),
{
    if s.len() > 0 {
        lemma_map_len(s.drop_last());
        lemma_map_of_contains(s.drop_last(), s.last().0);
    }
}

/// The registry map after one cycle has taken a whole enumeration into
/// account, target by target in order.
pub open spec fn spec_observe_all(
    m: Map<u128, TargetKvEntry>,
    gen: u64,
    ts: Seq<TargetView>,
) -> Map<u128, TargetKvEntry>
    decreases ts.len(),
{
    if ts.len() == 0 {
        m
    } else {
        spec_observe(spec_observe_all(m, gen, ts.drop_last()), gen, ts.last()).0
    }
}

/// The actions one cycle decides on, target by target in order.
pub open spec fn spec_cycle_actions(
    m: Map<u128, TargetKvEntry>,
    gen: u64,
    ts: Seq<TargetView>,
) -> Seq<SyncAction>
    decreases ts.len(),
{
    if ts.len() == 0 {
        Seq::empty()
    } else {
        spec_cycle_actions(m, gen, ts.drop_last()).push(
            spec_observe(spec_observe_all(m, gen, ts.drop_last()), gen, ts.last()).1,
        )
    }
}

/// A new enabled target leads to exactly one worker spawn and exactly one
/// registry insertion: its id, fingerprint and the current cycle.
pub proof fn lemma_new_target_spawns_one_worker(m: Map<u128, TargetKvEntry>, gen: u64, t: TargetView)
    requires
        t.enabled,
        !m.dom().contains(t.id),
    ensures
        spec_observe(m, gen, t).1 == SyncAction::Spawned,
        spec_observe(m, gen, t).0 == m.insert(
            t.id,
            TargetKvEntry { checksum: target_fingerprint(t), sync_counter: gen },
        ),
        m.dom().finite() ==> spec_observe(m, gen, t).0.dom().len() == m.dom().len() + 1,
{
    broadcast use vstd::set::axiom_set_insert_len;

    assert(spec_observe(m, gen, t).0.dom() =~= m.dom().insert(t.id));
}

/// The registry reflects an enumeration: every registered worker belongs to
/// an enabled target of the enumeration with an unchanged fingerprint, and
/// every enabled target of the enumeration is registered under its current
/// fingerprint.
pub open spec fn registry_reflects(m: Map<u128, TargetKvEntry>, ts: Seq<TargetView>) -> bool {
    &&& forall|id: u128| #[trigger]
        m.dom().contains(id) ==> exists|i: int|
            0 <= i < ts.len() && (#[trigger] ts[i]).enabled && ts[i].id == id
    &&& forall|i: int|
        0 <= i < ts.len() && (#[trigger] ts[i]).enabled ==> m.dom().contains(ts[i].id)
            && m[ts[i].id].checksum == target_fingerprint(ts[i])
}

proof fn lemma_matching_pass(m: Map<u128, TargetKvEntry>, gen: u64, ts: Seq<TargetView>)
    requires
        forall|i: int|
            0 <= i < ts.len() && (#[trigger] ts[i]).enabled ==> m.dom().contains(ts[i].id)
                && m[ts[i].id].checksum == target_fingerprint(ts[i]),
    ensures
        spec_cycle_actions(m, gen, ts).len() == ts.len(),
        spec_observe_all(m, gen, ts).dom() == m.dom(),
        forall|id: u128| #[trigger]
            m.dom().contains(id) ==> spec_observe_all(m, gen, ts)[id].checksum == m[id].checksum,
        forall|id: u128| #[trigger]
            m.dom().contains(id) ==> (spec_observe_all(m, gen, ts)[id].sync_counter
                == m[id].sync_counter || spec_observe_all(m, gen, ts)[id].sync_counter == gen),
        forall|i: int|
            0 <= i < ts.len() && (#[trigger] ts[i]).enabled ==> spec_observe_all(
                m,
                gen,
                ts,
            )[ts[i].id].sync_counter == gen,
        forall|k: int|
            0 <= k < ts.len() ==> (#[trigger] spec_cycle_actions(m, gen, ts)[k]
                == SyncAction::Refreshed || spec_cycle_actions(m, gen, ts)[k]
                == SyncAction::Skipped),
    decreases ts.len(),
{
    if ts.len() > 0 {
        let ts1 = ts.drop_last();
        let t = ts.last();
        assert(forall|i: int| 0 <= i < ts1.len() ==> ts1[i] == ts[i]);
        lemma_matching_pass(m, gen, ts1);
        let m1 = spec_observe_all(m, gen, ts1);
        let acts1 = spec_cycle_actions(m, gen, ts1);
        if t.enabled {
            assert(ts[ts.len() - 1].enabled);
            assert(m.dom().contains(t.id) && m[t.id].checksum == target_fingerprint(t));
            assert(m1.dom().contains(t.id));
            assert(m1[t.id].checksum == target_fingerprint(t));
            assert(spec_observe(m1, gen, t).1 == SyncAction::Refreshed);
            assert(spec_observe_all(m, gen, ts).dom() =~= m.dom());
        }
        assert(forall|k: int|
            0 <= k < acts1.len() ==> spec_cycle_actions(m, gen, ts)[k] == acts1[k]);
    }
}

/// An enumeration identical in content to what the registry already holds
/// leaves the cycle idempotent: no worker is spawned, no update is pushed,
/// and the sweep at the end of the cycle removes nothing.
pub proof fn lemma_unchanged_cycle_idempotent(
    m: Map<u128, TargetKvEntry>,
    gen: u64,
    ts: Seq<TargetView>,
)
    requires
        registry_reflects(m, ts),
    ensures
        spec_cycle_actions(m, gen, ts).len() == ts.len(),
        forall|k: int|
            0 <= k < ts.len() ==> (#[trigger] spec_cycle_actions(m, gen, ts)[k]
                == SyncAction::Refreshed || spec_cycle_actions(m, gen, ts)[k]
                == SyncAction::Skipped),
        spec_observe_all(m, gen, ts).dom() == m.dom(),
        forall|id: u128| #[trigger]
            m.dom().contains(id) ==> spec_observe_all(m, gen, ts)[id].checksum == m[id].checksum,
        swept(spec_observe_all(m, gen, ts), gen) == spec_observe_all(m, gen, ts),
{
    lemma_matching_pass(m, gen, ts);
    let mm = spec_observe_all(m, gen, ts);
    assert forall|id: u128| #[trigger] mm.dom().contains(id) implies mm[id].sync_counter == gen by {
        let i = choose|i: int| 0 <= i < ts.len() && (#[trigger] ts[i]).enabled && ts[i].id == id;
        assert(mm[ts[i].id].sync_counter == gen);
    }
    assert(swept(mm, gen) =~= mm);
}

/// A target that sits in the registry but is absent from, or disabled in,
/// the cycle's enumeration keeps its entry untouched through the whole pass
/// — never removed mid-cycle — and is dropped exactly by the sweep at the
/// end of that cycle.
pub proof fn lemma_absent_target_swept(
    m: Map<u128, TargetKvEntry>,
    gen: u64,
    ts: Seq<TargetView>,
    id: u128,
)
    requires
        m.dom().contains(id),
        m[id].sync_counter != gen,
        forall|i: int| 0 <= i < ts.len() ==> !((#[trigger] ts[i]).enabled && ts[i].id == id),
    ensures
        spec_observe_all(m, gen, ts).dom().contains(id),
        spec_observe_all(m, gen, ts)[id] == m[id],
        !swept(spec_observe_all(m, gen, ts), gen).dom().contains(id),
    decreases ts.len(),
{
    if ts.len() > 0 {
        let ts1 = ts.drop_last();
        assert(forall|i: int| 0 <= i < ts1.len() ==> ts1[i] == ts[i]);
        lemma_absent_target_swept(m, gen, ts1, id);
        assert(ts[ts.len() - 1] == ts.last());
    }
}

/// Two targets whose behaviour-affecting fields agree have the same
/// fingerprint: change detection never misses an unchanged target.
pub proof fn lemma_fingerprint_stable(a: TargetView, b: TargetView)
    requires
        a.id == b.id,
        a.state == b.state,
        a.name == b.name,
        a.address == b.address,
        a.ping_type == b.ping_type,
        a.interval == b.interval,
        a.metadata == b.metadata,
    ensures
        target_fingerprint(a) == target_fingerprint(b),
{
    assert(fingerprint_bytes(a) =~= fingerprint_bytes(b));
}

} // verus!
