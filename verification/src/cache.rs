//! The cache of probed devices, and what of it outlives the process.

use vstd::prelude::*;
use crate::device::{DeviceModelInfo, DeviceModelInfoView};
use crate::probe::{ProbedFeatures, ProbedFeaturesView};
use crate::seqs::lemma_push_contains;
use crate::table::Table;
use crate::value::Value;

verus! {

/// So many passes in a row a cached device may be missing before it is dropped.
pub const CACHE_MISS_GRACE: u8 = 3;

/// After so many passes a cached probe is made anew.
pub const REFRESH_TICKS: u64 = 150;

/// The version of the saved cache.
pub const CACHE_SCHEMA: u32 = 1;

/// A cached probe.
#[derive(Debug, PartialEq, Eq)]
pub struct Cached {
    pub probe: ProbedFeatures,
    pub battery_index: Option<u8>,
    /// The pass in which the device was probed.
    pub probed_tick: u64,
}

/// The meaning of a [`Cached`].
pub struct CachedView {
    pub probe: ProbedFeaturesView,
    pub battery_index: Option<u8>,
    pub probed_tick: u64,
}

impl DeepView for Cached {
    type V = CachedView;

    open spec fn deep_view(&self) -> CachedView {
        CachedView {
            probe: self.probe.deep_view(),
            battery_index: self.battery_index.deep_view(),
            probed_tick: self.probed_tick.deep_view(),
        }
    }
}

impl Value for Cached {
    fn same(&self, other: &Self) -> (r: bool) {
        self.probe.same(&other.probe)
            && self.battery_index.same(&other.battery_index)
            && self.probed_tick.same(&other.probed_tick)
    }

    fn copy(&self) -> (r: Self) {
        Cached {
            probe: self.probe.copy(),
            battery_index: self.battery_index.copy(),
            probed_tick: self.probed_tick.copy(),
        }
    }
}

/// What a cached device is known by.
#[derive(Debug, PartialEq, Eq)]
pub enum CacheKey {
    /// Paired with a Bolt receiver.
    Bolt { unit_id: [u8; 4] },
    /// Paired with a Unifying receiver.
    UnifyingSlot { receiver_uid: String, slot: u8 },
    /// Connected by itself, known by its node only while the process runs.
    Direct { node: u64 },
}

/// The meaning of a [`CacheKey`].
pub enum CacheKeyView {
    Bolt { unit_id: Seq<u8> },
    UnifyingSlot { receiver_uid: Seq<char>, slot: u8 },
    Direct { node: u64 },
}

impl DeepView for CacheKey {
    type V = CacheKeyView;

    open spec fn deep_view(&self) -> CacheKeyView {
        match self {
            CacheKey::Bolt { unit_id } => CacheKeyView::Bolt { unit_id: unit_id.deep_view() },
            CacheKey::UnifyingSlot { receiver_uid, slot } => CacheKeyView::UnifyingSlot {
                receiver_uid: receiver_uid.deep_view(),
                slot: *slot,
            },
            CacheKey::Direct { node } => CacheKeyView::Direct { node: *node },
        }
    }
}

impl Value for CacheKey {
    fn same(&self, other: &Self) -> (r: bool) {
        match (self, other) {
            (CacheKey::Bolt { unit_id: a }, CacheKey::Bolt { unit_id: b }) => a.same(b),
            (
                CacheKey::UnifyingSlot { receiver_uid: a, slot: i },
                CacheKey::UnifyingSlot { receiver_uid: b, slot: j },
            ) => a.same(b) && *i == *j,
            (CacheKey::Direct { node: a }, CacheKey::Direct { node: b }) => *a == *b,
            _ => false,
        }
    }

    fn copy(&self) -> (r: Self) {
        match self {
            CacheKey::Bolt { unit_id } => CacheKey::Bolt { unit_id: unit_id.copy() },
            CacheKey::UnifyingSlot { receiver_uid, slot } => CacheKey::UnifyingSlot {
                receiver_uid: receiver_uid.copy(),
                slot: *slot,
            },
            CacheKey::Direct { node } => CacheKey::Direct { node: *node },
        }
    }
}

/// What a pass found of one device.
#[derive(Debug, PartialEq, Eq)]
pub enum CacheOutcome {
    /// It was probed for the first time.
    Fresh(CacheKey, Cached),
    /// It was probed again.
    Update(CacheKey, Cached),
    /// It is there, and the cached probe still holds.
    Seen(CacheKey),
    /// It cannot be cached.
    Unkeyed,
}

/// How many passes ago the device was probed; the count of passes may wrap.
pub open spec fn age(probed_tick: u64, tick: u64) -> int {
    if tick >= probed_tick {
        tick - probed_tick
    } else {
        tick - probed_tick + 0x1_0000_0000_0000_0000
    }
}

/// Whether `cached` has to be probed anew in the pass `tick`.
pub fn is_stale(cached: &Cached, tick: u64) -> (r: bool)
    ensures
        r == (age(cached.probed_tick, tick) >= REFRESH_TICKS),
{
    tick.wrapping_sub(cached.probed_tick) >= REFRESH_TICKS
}

/// A probe with what its failed reads left out taken from an earlier one.
pub open spec fn backfilled(fresh: ProbedFeaturesView, cached: ProbedFeaturesView) -> ProbedFeaturesView {
    ProbedFeaturesView {
        kind: if fresh.kind is None {
            cached.kind
        } else {
            fresh.kind
        },
        model_info: match (fresh.identity_incomplete, cached.model_info) {
            (true, Some(known)) => match fresh.model_info {
                None => Some(known),
                Some(info) => Some(
                    DeviceModelInfoView {
                        serial_number: if info.serial_number is None {
                            known.serial_number
                        } else {
                            info.serial_number
                        },
                        ..info
                    },
                ),
            },
            _ => fresh.model_info,
        },
        identity_incomplete: fresh.identity_incomplete && cached.model_info is None,
        ..fresh
    }
}

/// Takes what failed reads left out of `fresh` from `cached`: the identity, or
/// its serial number, and the kind.
pub fn backfill_identity(fresh: &mut ProbedFeatures, cached: &ProbedFeatures)
    ensures
        final(fresh).deep_view() == backfilled(old(fresh).deep_view(), cached.deep_view()),
{
    if fresh.kind.is_none() {
        fresh.kind = cached.kind;
    }
    if fresh.identity_incomplete {
        if let Some(known) = &cached.model_info {
            let mut taken: Option<DeviceModelInfo> = None;
            std::mem::swap(&mut taken, &mut fresh.model_info);
            let filled = match taken {
                None => known.copy(),
                Some(info) => {
                    let mut info = info;
                    if info.serial_number.is_none() {
                        info.serial_number = known.serial_number.copy();
                    }
                    info
                },
            };
            fresh.model_info = Some(filled);
            fresh.identity_incomplete = false;
        }
    }
}

/// A complete probe keeps its identity: nothing is taken from the cache but a
/// kind that was not told.
pub proof fn law_complete_probe_keeps_its_identity(fresh: ProbedFeaturesView, cached: ProbedFeaturesView)
    requires
        !fresh.identity_incomplete,
    ensures
        backfilled(fresh, cached) == (ProbedFeaturesView {
            kind: if fresh.kind is None {
                cached.kind
            } else {
                fresh.kind
            },
            ..fresh
        }),
{
}

/// What was read now wins over what is cached: only missing parts are filled.
pub proof fn law_backfill_only_adds(fresh: ProbedFeaturesView, cached: ProbedFeaturesView)
    ensures
        fresh.kind is Some ==> backfilled(fresh, cached).kind == fresh.kind,
        fresh.model_info matches Some(info) ==> {
            &&& backfilled(fresh, cached).model_info matches Some(now)
            &&& now == (DeviceModelInfoView { serial_number: now.serial_number, ..info })
            &&& info.serial_number is Some ==> now.serial_number == info.serial_number
        },
        backfilled(fresh, cached).battery == fresh.battery,
        backfilled(fresh, cached).capabilities == fresh.capabilities,
{
}

/// Filling in a second time changes nothing.
pub proof fn law_backfill_is_idempotent(fresh: ProbedFeaturesView, cached: ProbedFeaturesView)
    ensures
        backfilled(backfilled(fresh, cached), cached) == backfilled(fresh, cached),
{
}

/// The cache as it is saved.
#[derive(Debug, PartialEq, Eq)]
pub struct SavedCache {
    pub schema: u32,
    pub entries: Vec<(CacheKey, Cached)>,
}

/// A device with this key is known again after a restart.
pub open spec fn is_lasting(key: CacheKeyView) -> bool {
    !(key is Direct)
}

/// What is saved of a cached probe and comes back: all but the pass it was made
/// in.
pub open spec fn restored(cached: CachedView) -> CachedView {
    CachedView { probed_tick: 0, ..cached }
}

/// The meaning of a cache.
pub open spec fn cache_views(cache: Map<CacheKeyView, Cached>) -> Map<CacheKeyView, CachedView> {
    Map::new(|k: CacheKeyView| cache.dom().contains(k), |k: CacheKeyView| cache[k].deep_view())
}

/// What becomes of a cache that is saved and loaded again.
pub open spec fn reloaded(cache: Map<CacheKeyView, CachedView>) -> Map<CacheKeyView, CachedView> {
    Map::new(|k: CacheKeyView| cache.dom().contains(k) && is_lasting(k), |k: CacheKeyView| restored(cache[k]))
}

/// `entries` hold what is to be saved of `cache`, each key once.
pub open spec fn saves(cache: Map<CacheKeyView, CachedView>, entries: Seq<(CacheKeyView, CachedView)>) -> bool {
    &&& forall|i: int, j: int| 0 <= i < j < entries.len() ==> (#[trigger] entries[i]).0 != (#[trigger] entries[j]).0
    &&& forall|i: int|
        0 <= i < entries.len() ==> is_lasting((#[trigger] entries[i]).0) && cache.dom().contains(entries[i].0)
            && entries[i].1 == cache[entries[i].0]
    &&& forall|k: CacheKeyView| #[trigger] cache.dom().contains(k) && is_lasting(k) ==> holds_key(entries, k)
}

pub open spec fn holds_key(entries: Seq<(CacheKeyView, CachedView)>, key: CacheKeyView) -> bool {
    exists|i: int| 0 <= i < entries.len() && (#[trigger] entries[i]).0 == key
}

/// The cache that the first `n` entries make up; a later entry replaces an
/// earlier one of its key.
pub open spec fn loaded(entries: Seq<(CacheKeyView, CachedView)>, n: int) -> Map<CacheKeyView, CachedView>
    decreases n,
{
    if n <= 0 {
        Map::empty()
    } else {
        loaded(entries, n - 1).insert(entries[n - 1].0, restored(entries[n - 1].1))
    }
}

/// What is saved of a cache: the devices that are known again after a restart.
pub fn save(cache: &Table<CacheKey, Cached>) -> (r: SavedCache)
    ensures
        r.schema == CACHE_SCHEMA,
        saves(cache_views(cache@), r.entries.deep_view()),
{
    let ghost all = cache_views(cache@);
    let ghost order = cache.order();
    let mut entries: Vec<(CacheKey, Cached)> = Vec::new();
    let n: usize = cache.len();
    let mut i: usize = 0;
    proof {
        use_type_invariant(cache);
        cache.lemma_order();
    }
    while i < n
        invariant
            i <= n,
            n == order.len(),
            order == cache.order(),
            order.no_duplicates(),
            all == cache_views(cache@),
            forall|a: int, b: int|
                0 <= a < b < entries@.len() ==> (#[trigger] entries.deep_view()[a]).0 != (
                #[trigger] entries.deep_view()[b]).0,
            forall|a: int|
                0 <= a < entries@.len() ==> is_lasting((#[trigger] entries.deep_view()[a]).0) && all.dom().contains(
                    entries.deep_view()[a].0,
                ) && entries.deep_view()[a].1 == all[entries.deep_view()[a].0] && order.take(i as int).contains(
                    entries.deep_view()[a].0,
                ),
            forall|k: CacheKeyView|
                #[trigger] order.take(i as int).contains(k) && is_lasting(k) ==> holds_key(entries.deep_view(), k),
        decreases n - i,
    {
        let key: &CacheKey = cache.key_at(i);
        let cached: &Cached = cache.value_at(i);
        let ghost k = key.deep_view();
        let ghost so_far = entries.deep_view();
        let ghost (t, u) = (order.take(i as int), order.take(i + 1));
        assert(all.dom().contains(k) && all[k] == cached.deep_view());
        let lasting = match key {
            CacheKey::Direct { .. } => false,
            _ => true,
        };
        if lasting {
            entries.push((key.copy(), cached.copy()));
            assert(entries.deep_view() =~= so_far.push((k, cached.deep_view())));
        }
        proof {
            let now = entries.deep_view();
            assert(order[i as int] == k);
            assert(u =~= t.push(k));
            lemma_push_contains(t, k);
            assert forall|a: int| 0 <= a < so_far.len() implies (#[trigger] so_far[a]).0 != k by {
                assert(t.contains(so_far[a].0));
                let p = choose|p: int| 0 <= p < t.len() && t[p] == so_far[a].0;
                assert(order[p] != order[i as int]);
            }
            assert forall|a: int| 0 <= a < so_far.len() implies now[a] == #[trigger] so_far[a] by {}
            assert forall|x: CacheKeyView| #[trigger] u.contains(x) && is_lasting(x) implies holds_key(now, x) by {
                if t.contains(x) {
                    assert(holds_key(so_far, x));
                    let a = choose|a: int| 0 <= a < so_far.len() && (#[trigger] so_far[a]).0 == x;
                    assert(now[a] == so_far[a]);
                } else {
                    assert(now[so_far.len() as int].0 == x);
                }
            }
        }
        i += 1;
    }
    proof {
        assert(order.take(n as int) =~= order);
        assert forall|k: CacheKeyView| #[trigger] all.dom().contains(k) && is_lasting(k) implies holds_key(
            entries.deep_view(),
            k,
        ) by {
            assert(order.to_set().contains(k));
        }
    }
    SavedCache { schema: CACHE_SCHEMA, entries }
}

/// The cache that was saved; empty if it was saved in another form. Its probes
/// count as made in pass zero, so they are made anew in their time.
pub fn load(saved: SavedCache) -> (r: Table<CacheKey, Cached>)
    ensures
        cache_views(r@) == if saved.schema == CACHE_SCHEMA {
            loaded(saved.entries.deep_view(), saved.entries@.len() as int)
        } else {
            Map::empty()
        },
{
    let mut cache: Table<CacheKey, Cached> = Table::new();
    let ghost entries = saved.entries.deep_view();
    assert(cache_views(cache@) =~= loaded(entries, 0));
    if saved.schema != CACHE_SCHEMA {
        return cache;
    }
    let mut i: usize = 0;
    while i < saved.entries.len()
        invariant
            i <= saved.entries@.len(),
            entries == saved.entries.deep_view(),
            cache_views(cache@) == loaded(entries, i as int),
        decreases saved.entries@.len() - i,
    {
        let entry: &(CacheKey, Cached) = &saved.entries[i];
        let ghost so_far = cache_views(cache@);
        let mut cached = entry.1.copy();
        cached.probed_tick = 0;
        let ghost v = cached.deep_view();
        cache.insert(entry.0.copy(), cached);
        assert(entries[i as int] == entry.deep_view());
        assert(cache_views(cache@) =~= so_far.insert(entry.0.deep_view(), v));
        i += 1;
    }
    cache
}

/// What was saved comes back: every device that is known again after a restart,
/// with all that was cached of it, to be probed anew in its time.
pub proof fn law_saved_cache_comes_back(
    cache: Map<CacheKeyView, CachedView>,
    entries: Seq<(CacheKeyView, CachedView)>,
)
    requires
        saves(cache, entries),
    ensures
        loaded(entries, entries.len() as int) == reloaded(cache),
{
    let n = entries.len() as int;
    lemma_loaded(entries, n);
    let (a, b) = (loaded(entries, n), reloaded(cache));
    assert forall|k: CacheKeyView| #[trigger] a.dom().contains(k) <==> b.dom().contains(k) by {
        if b.dom().contains(k) {
            assert(holds_key(entries, k));
        }
        if a.dom().contains(k) {
            let i = choose|i: int| 0 <= i < n && (#[trigger] entries[i]).0 == k;
            assert(is_lasting(entries[i].0));
        }
    }
    assert forall|k: CacheKeyView| #[trigger] a.dom().contains(k) implies a[k] == b[k] by {
        let i = choose|i: int| 0 <= i < n && (#[trigger] entries[i]).0 == k;
        assert(a[k] == restored(entries[i].1));
    }
    assert(a =~= b);
}

proof fn lemma_loaded(entries: Seq<(CacheKeyView, CachedView)>, n: int)
    requires
        0 <= n <= entries.len(),
        forall|i: int, j: int|
            0 <= i < j < entries.len() ==> (#[trigger] entries[i]).0 != (#[trigger] entries[j]).0,
    ensures
        forall|k: CacheKeyView|
            #[trigger] loaded(entries, n).dom().contains(k) <==> exists|i: int|
                0 <= i < n && (#[trigger] entries[i]).0 == k,
        forall|i: int| 0 <= i < n ==> loaded(entries, n)[(#[trigger] entries[i]).0] == restored(entries[i].1),
    decreases n,
{
    if n > 0 {
        lemma_loaded(entries, n - 1);
        assert forall|k: CacheKeyView| #[trigger] loaded(entries, n).dom().contains(k) <==> exists|i: int|
            0 <= i < n && (#[trigger] entries[i]).0 == k by {
            if loaded(entries, n).dom().contains(k) {
                if k == entries[n - 1].0 {
                    assert(entries[n - 1].0 == k);
                } else {
                    assert(loaded(entries, n - 1).dom().contains(k));
                }
            }
            if exists|i: int| 0 <= i < n && (#[trigger] entries[i]).0 == k {
                let i = choose|i: int| 0 <= i < n && (#[trigger] entries[i]).0 == k;
                if i < n - 1 {
                    assert(loaded(entries, n - 1).dom().contains(k));
                }
            }
        }
    }
}

/// The age of a probe is the number of passes that lead from its pass to this
/// one, counted on over the end of the count.
pub proof fn law_age_counts_the_passes(probed_tick: u64, tick: u64)
    ensures
        0 <= age(probed_tick, tick) <= u64::MAX,
        (probed_tick + age(probed_tick, tick)) % 0x1_0000_0000_0000_0000 == tick,
{
}

/// A missing identity or serial number is taken from the cache exactly if the
/// read of it failed and the cache knows the device; then the probe counts as
/// complete. A kind that was not told is taken in any case.
pub proof fn law_failed_reads_are_filled_in(fresh: ProbedFeaturesView, cached: ProbedFeaturesView)
    ensures
        ({
            let filled = backfilled(fresh, cached);
            let fills = fresh.identity_incomplete && cached.model_info is Some;
            &&& fresh.kind is None ==> filled.kind == cached.kind
            &&& fresh.kind is Some ==> filled.kind == fresh.kind
            &&& fills && fresh.model_info is None ==> filled.model_info == cached.model_info
            &&& fills && fresh.model_info is Some ==> {
                let (now, known) = (filled.model_info->0, cached.model_info->0);
                &&& filled.model_info is Some
                &&& fresh.model_info->0.serial_number is None ==> now.serial_number == known.serial_number
                &&& fresh.model_info->0.serial_number is Some ==> now.serial_number
                    == fresh.model_info->0.serial_number
                &&& now == (DeviceModelInfoView { serial_number: now.serial_number, ..fresh.model_info->0 })
            }
            &&& fills ==> !filled.identity_incomplete
            &&& !fills ==> filled.model_info == fresh.model_info && filled.identity_incomplete
                == fresh.identity_incomplete
        }),
{
}

/// Exactly the paired devices are known again after a restart.
pub proof fn law_paired_devices_are_lasting(unit_id: Seq<u8>, receiver_uid: Seq<char>, slot: u8, node: u64)
    ensures
        is_lasting(CacheKeyView::Bolt { unit_id }),
        is_lasting(CacheKeyView::UnifyingSlot { receiver_uid, slot }),
        !is_lasting(CacheKeyView::Direct { node }),
{
}

/// What is saved of a cache are its paired devices, each once, with all that is
/// cached of them.
pub proof fn law_paired_devices_are_saved(
    cache: Map<CacheKeyView, CachedView>,
    entries: Seq<(CacheKeyView, CachedView)>,
    key: CacheKeyView,
)
    requires
        saves(cache, entries),
    ensures
        (exists|i: int| 0 <= i < entries.len() && (#[trigger] entries[i]).0 == key) <==> cache.dom().contains(key) && !(
        key is Direct),
        forall|i: int| 0 <= i < entries.len() ==> (#[trigger] entries[i]).1 == cache[entries[i].0],
        forall|i: int, j: int| 0 <= i < j < entries.len() ==> (#[trigger] entries[i]).0 != (#[trigger] entries[j]).0,
{
    if cache.dom().contains(key) && !(key is Direct) {
        assert(holds_key(entries, key));
    }
}

/// What is saved comes back with its probe and its battery, as probed in pass
/// zero; the last entry of a key counts.
pub proof fn law_last_entry_comes_back(entries: Seq<(CacheKeyView, CachedView)>, n: int, i: int)
    requires
        0 <= i < n <= entries.len(),
        forall|j: int| i < j < n ==> (#[trigger] entries[j]).0 != entries[i].0,
    ensures
        loaded(entries, n).dom().contains(entries[i].0),
        loaded(entries, n)[entries[i].0].probe == entries[i].1.probe,
        loaded(entries, n)[entries[i].0].battery_index == entries[i].1.battery_index,
        loaded(entries, n)[entries[i].0].probed_tick == 0,
    decreases n,
{
    if i < n - 1 {
        assert(entries[n - 1].0 != entries[i].0);
        law_last_entry_comes_back(entries, n - 1, i);
    }
}

/// Nothing comes back that was not saved.
pub proof fn law_only_saved_entries_come_back(entries: Seq<(CacheKeyView, CachedView)>, n: int, key: CacheKeyView)
    requires
        0 <= n <= entries.len(),
        loaded(entries, n).dom().contains(key),
    ensures
        exists|i: int| 0 <= i < n && (#[trigger] entries[i]).0 == key,
    decreases n,
{
    if n > 0 && entries[n - 1].0 != key {
        law_only_saved_entries_come_back(entries, n - 1, key);
    }
}

/// A cache that is saved and loaded again holds its paired devices, with their
/// probes and batteries.
pub proof fn law_reload_keeps_paired_devices(cache: Map<CacheKeyView, CachedView>, key: CacheKeyView)
    ensures
        reloaded(cache).dom().contains(key) <==> cache.dom().contains(key) && !(key is Direct),
        reloaded(cache).dom().contains(key) ==> reloaded(cache)[key].probe == cache[key].probe
            && reloaded(cache)[key].battery_index == cache[key].battery_index && reloaded(cache)[key].probed_tick == 0,
{
}

/// The meaning of a cached probe, of a key and of a cache holds what they hold.
pub proof fn law_cache_means_what_it_holds(cached: Cached, key: CacheKey, cache: Map<CacheKeyView, Cached>)
    ensures
        cached.deep_view().probe == cached.probe.deep_view(),
        cached.deep_view().battery_index == cached.battery_index,
        cached.deep_view().probed_tick == cached.probed_tick,
        match key {
            CacheKey::Bolt { unit_id } => key.deep_view() is Bolt && key.deep_view()->unit_id == unit_id@,
            CacheKey::UnifyingSlot { receiver_uid, slot } => key.deep_view() is UnifyingSlot
                && key.deep_view()->receiver_uid == receiver_uid@ && key.deep_view()->slot == slot,
            CacheKey::Direct { node } => key.deep_view() == (CacheKeyView::Direct { node }),
        },
        cache_views(cache).dom() == cache.dom(),
        forall|k: CacheKeyView| #[trigger] cache.dom().contains(k) ==> cache_views(cache)[k] == cache[k].deep_view(),
{
    if let CacheKey::Bolt { unit_id } = key {
        assert(unit_id.deep_view() =~= unit_id@);
    }
    assert(cache_views(cache).dom() =~= cache.dom());
}

/// A device may be missing for three passes. A probe that came back from disk is
/// made anew from pass 150 on.
pub proof fn law_limits_of_the_cache(tick: u64)
    ensures
        CACHE_MISS_GRACE == 3,
        age(0, tick) >= REFRESH_TICKS <==> tick >= 150,
        CACHE_SCHEMA == 1,
{
}

} // verus!
