//! Enumeration: passes over the nodes, the cache between them, and when a single
//! enumeration is done.

use vstd::prelude::*;
use crate::cache::{CacheKey, CacheKeyView, CacheOutcome, Cached, CACHE_MISS_GRACE};
use crate::device::{DeviceInventory, DeviceInventoryView};
use crate::seqs::{lemma_filter_step, lemma_push_contains, lemma_push_to_set};
use crate::table::Table;
use crate::value::{list_contains, Value};

verus! {

/// So many passes a single enumeration makes at most.
pub const ONESHOT_ATTEMPTS: u8 = 4;

/// The pause between two passes of a single enumeration, in milliseconds.
pub const ONESHOT_RETRY_DELAY_MS: u64 = 300;

/// A single enumeration is done after a pass: nothing is missing, or two passes
/// in a row that were answered came to the same, or there were enough of them.
pub open spec fn stops(
    previous: Option<Seq<DeviceInventoryView>>,
    current: Seq<DeviceInventoryView>,
    all_complete: bool,
    all_healthy: bool,
    attempt: u8,
) -> bool {
    all_complete || (all_healthy && previous == Some(current)) || attempt >= ONESHOT_ATTEMPTS
}

/// Whether a single enumeration is done after a pass. What a node that did not
/// answer was last known for is no evidence, though it stays the same.
pub fn one_shot_should_stop(
    previous: Option<&Vec<DeviceInventory>>,
    current: &Vec<DeviceInventory>,
    all_complete: bool,
    all_healthy: bool,
    attempt: u8,
) -> (r: bool)
    ensures
        r == stops(
            match previous {
                Some(p) => Some(p.deep_view()),
                None => None,
            },
            current.deep_view(),
            all_complete,
            all_healthy,
            attempt,
        ),
{
    let unchanged = match previous {
        Some(p) => p.same(current),
        None => false,
    };
    all_complete || (all_healthy && unchanged) || attempt >= ONESHOT_ATTEMPTS
}

/// A single enumeration under way.
#[derive(Debug, PartialEq, Eq)]
pub struct OneShot {
    /// What the last pass came to, if all nodes answered in it.
    pub previous: Option<Vec<DeviceInventory>>,
    /// The number of the pass, from one on.
    pub attempt: u8,
}

impl OneShot {
    pub fn new() -> (r: Self)
        ensures
            r.previous is None,
            r.attempt == 1,
    {
        OneShot { previous: None, attempt: 1 }
    }

    /// Takes in a pass: what the enumeration comes to if it is done, or nothing
    /// if another pass is to follow.
    pub fn after_pass(&mut self, inventories: Vec<DeviceInventory>, all_complete: bool, all_healthy: bool) -> (r:
        Option<Vec<DeviceInventory>>)
        ensures
            if stops(
                old(self).previous.deep_view(),
                inventories.deep_view(),
                all_complete,
                all_healthy,
                old(self).attempt,
            ) {
                &&& r == Some(inventories)
                &&& *final(self) == *old(self)
            } else {
                &&& r is None
                &&& final(self).attempt == old(self).attempt + 1
                &&& final(self).previous == if all_healthy {
                    Some(inventories)
                } else {
                    None
                }
            },
    {
        let done = match &self.previous {
            Some(p) => one_shot_should_stop(Some(p), &inventories, all_complete, all_healthy, self.attempt),
            None => one_shot_should_stop(None, &inventories, all_complete, all_healthy, self.attempt),
        };
        if done {
            return Some(inventories);
        }
        self.previous = if all_healthy {
            Some(inventories)
        } else {
            None
        };
        self.attempt = self.attempt + 1;
        None
    }
}

/// A single enumeration comes to an end: the last pass ends it, whatever it
/// comes to.
pub proof fn law_last_attempt_stops(
    previous: Option<Seq<DeviceInventoryView>>,
    current: Seq<DeviceInventoryView>,
    all_complete: bool,
    all_healthy: bool,
    attempt: u8,
)
    requires
        attempt >= ONESHOT_ATTEMPTS,
    ensures
        stops(previous, current, all_complete, all_healthy, attempt),
{
}

/// What the ledger of the nodes made of a probe.
#[derive(Debug, PartialEq, Eq)]
pub struct Settlement {
    /// The inventory to report: the one just read, or the last good one.
    pub inventory: Option<DeviceInventory>,
    /// The channel is to be opened anew.
    pub evict_channel: bool,
}

/// A node that was probed, and what the ledger made of it.
#[derive(Debug, PartialEq, Eq)]
pub struct SettledNode {
    pub node: u64,
    pub complete: bool,
    pub healthy: bool,
    pub outcomes: Vec<CacheOutcome>,
    pub settled: Settlement,
}

/// What came of opening a node.
#[derive(Clone, Copy, Debug, PartialEq, Eq, Structural)]
pub enum OpenResult {
    /// It speaks HID++.
    Hidpp,
    /// It speaks something else.
    OtherHid,
    Failed,
}

/// What a pass does with a node.
#[derive(Clone, Copy, Debug, PartialEq, Eq, Structural)]
pub enum NodeStatus {
    /// It is probed.
    Active,
    Ignored,
    /// It counts as a probe that failed.
    Failed,
}

/// What a pass came to.
#[derive(Debug, PartialEq, Eq)]
pub struct Pass {
    pub inventories: Vec<DeviceInventory>,
    pub all_complete: bool,
    pub all_healthy: bool,
}

/// What lasts from one pass to the next.
pub struct Enumerator {
    pub cache: Table<CacheKey, Cached>,
    /// For how many passes in a row a cached device has been missing.
    pub misses: Table<CacheKey, u8>,
    /// The nodes with an open channel.
    pub channels: Vec<u64>,
    pub tick: u64,
}

/// For how many passes in a row `key` is missing if it is missing once more.
pub open spec fn missed(misses: Map<CacheKeyView, u8>, key: CacheKeyView) -> int {
    if misses.dom().contains(key) {
        misses[key] + 1
    } else {
        1
    }
}

/// A cached device is dropped: it is missing, and has been for too long.
pub open spec fn drops(misses: Map<CacheKeyView, u8>, seen: Set<CacheKeyView>, key: CacheKeyView) -> bool {
    !seen.contains(key) && missed(misses, key) > CACHE_MISS_GRACE
}

/// The cache after a pass in which the devices `seen` were there.
pub open spec fn cache_after<T>(
    cache: Map<CacheKeyView, T>,
    misses: Map<CacheKeyView, u8>,
    seen: Set<CacheKeyView>,
) -> Map<CacheKeyView, T> {
    Map::new(|k: CacheKeyView| cache.dom().contains(k) && !drops(misses, seen, k), |k: CacheKeyView| cache[k])
}

/// The count of misses after a pass in which the devices `seen` were there.
pub open spec fn misses_after<T>(
    cache: Map<CacheKeyView, T>,
    misses: Map<CacheKeyView, u8>,
    seen: Set<CacheKeyView>,
) -> Map<CacheKeyView, u8> {
    Map::new(
        |k: CacheKeyView|
            !seen.contains(k) && if cache.dom().contains(k) {
                !drops(misses, seen, k)
            } else {
                misses.dom().contains(k)
            },
        |k: CacheKeyView|
            if cache.dom().contains(k) {
                missed(misses, k) as u8
            } else {
                misses[k]
            },
    )
}

/// The devices that an outcome tells of.
pub open spec fn seen_in(outcomes: Seq<CacheOutcome>, n: int) -> Set<CacheKeyView>
    decreases n,
{
    if n <= 0 {
        Set::empty()
    } else {
        match outcomes[n - 1] {
            CacheOutcome::Fresh(key, _) | CacheOutcome::Update(key, _) | CacheOutcome::Seen(key) => seen_in(
                outcomes,
                n - 1,
            ).insert(key.deep_view()),
            CacheOutcome::Unkeyed => seen_in(outcomes, n - 1),
        }
    }
}

/// The cache with the first `n` outcomes entered.
pub open spec fn entered(cache: Map<CacheKeyView, Cached>, outcomes: Seq<CacheOutcome>, n: int) -> Map<
    CacheKeyView,
    Cached,
>
    decreases n,
{
    if n <= 0 {
        cache
    } else {
        match outcomes[n - 1] {
            CacheOutcome::Fresh(key, cached) | CacheOutcome::Update(key, cached) => entered(
                cache,
                outcomes,
                n - 1,
            ).insert(key.deep_view(), cached),
            CacheOutcome::Seen(_) | CacheOutcome::Unkeyed => entered(cache, outcomes, n - 1),
        }
    }
}

/// The outcomes of the first `n` nodes.
pub open spec fn outcomes_of(nodes: Seq<SettledNode>, n: int) -> Seq<CacheOutcome>
    decreases n,
{
    if n <= 0 {
        Seq::empty()
    } else {
        outcomes_of(nodes, n - 1) + nodes[n - 1].outcomes@
    }
}

/// What there is of an inventory.
pub open spec fn some_inventory(inventory: Option<DeviceInventory>) -> Seq<DeviceInventory> {
    match inventory {
        Some(inventory) => seq![inventory],
        None => Seq::empty(),
    }
}

/// The inventories of the first `n` nodes.
pub open spec fn inventories_of(nodes: Seq<SettledNode>, n: int) -> Seq<DeviceInventory>
    decreases n,
{
    if n <= 0 {
        Seq::empty()
    } else {
        inventories_of(nodes, n - 1) + some_inventory(nodes[n - 1].settled.inventory)
    }
}

/// What the first `n` nodes that did not open were last known for.
pub open spec fn replayed(failures: Seq<Option<DeviceInventory>>, n: int) -> Seq<DeviceInventory>
    decreases n,
{
    if n <= 0 {
        Seq::empty()
    } else {
        replayed(failures, n - 1) + some_inventory(failures[n - 1])
    }
}

/// The channel of `node` is to be opened anew.
pub open spec fn is_evicted(nodes: Seq<SettledNode>, node: u64) -> bool {
    exists|i: int| 0 <= i < nodes.len() && (#[trigger] nodes[i]).node == node && nodes[i].settled.evict_channel
}

pub open spec fn not_evicted(nodes: Seq<SettledNode>) -> spec_fn(u64) -> bool {
    |node: u64| !is_evicted(nodes, node)
}

pub open spec fn is_listed(listed: Seq<u64>) -> spec_fn(u64) -> bool {
    |node: u64| listed.contains(node)
}

impl Enumerator {
    /// No device has been missing for longer than the grace.
    pub open spec fn counts_in_grace(&self) -> bool {
        forall|k: CacheKeyView| #[trigger] self.misses@.dom().contains(k) ==> self.misses@[k] <= CACHE_MISS_GRACE
    }

    /// Nothing is known.
    pub fn new() -> (r: Self)
        ensures
            r.cache@ == Map::<CacheKeyView, Cached>::empty(),
            r.misses@ == Map::<CacheKeyView, u8>::empty(),
            r.channels@.len() == 0,
            r.tick == 0,
            r.counts_in_grace(),
    {
        Enumerator { cache: Table::new(), misses: Table::new(), channels: Vec::new(), tick: 0 }
    }

    /// Starts with a cache that was saved.
    pub fn with_cache(cache: Table<CacheKey, Cached>) -> (r: Self)
        ensures
            r.cache == cache,
            r.misses@ == Map::<CacheKeyView, u8>::empty(),
            r.channels@.len() == 0,
            r.tick == 0,
            r.counts_in_grace(),
    {
        Enumerator { cache, misses: Table::new(), channels: Vec::new(), tick: 0 }
    }

    /// Starts a pass, and gives its number.
    pub fn begin_pass(&mut self) -> (r: u64)
        ensures
            r == if old(self).tick == u64::MAX {
                0
            } else {
                old(self).tick + 1
            },
            *final(self) == (Enumerator { tick: r, ..*old(self) }),
    {
        self.tick = self.tick.wrapping_add(1);
        self.tick
    }

    /// Whether `node` has an open channel that is used again.
    pub fn has_channel(&self, node: u64) -> (r: bool)
        ensures
            r == self.channels@.contains(node),
    {
        assert(self.channels.deep_view() =~= self.channels@);
        list_contains(&self.channels, &node)
    }

    /// What the pass does with a node that had no channel, given what came of
    /// opening it.
    pub fn after_open(&mut self, node: u64, result: OpenResult) -> (r: NodeStatus)
        ensures
            r == match result {
                OpenResult::Hidpp => NodeStatus::Active,
                OpenResult::OtherHid => NodeStatus::Ignored,
                OpenResult::Failed => NodeStatus::Failed,
            },
            *final(self) == (Enumerator { channels: final(self).channels, ..*old(self) }),
            final(self).channels@ == if result == OpenResult::Hidpp {
                old(self).channels@.push(node)
            } else {
                old(self).channels@
            },
    {
        match result {
            OpenResult::Hidpp => {
                self.channels.push(node);
                NodeStatus::Active
            },
            OpenResult::OtherHid => NodeStatus::Ignored,
            OpenResult::Failed => NodeStatus::Failed,
        }
    }

    /// Closes the channels of the nodes that are not listed any more.
    pub fn retain_channels(&mut self, listed: &Vec<u64>)
        ensures
            *final(self) == (Enumerator { channels: final(self).channels, ..*old(self) }),
            final(self).channels@ == old(self).channels@.filter(is_listed(listed@)),
    {
        let ghost keep = is_listed(listed@);
        let ghost all = self.channels@;
        let mut kept: Vec<u64> = Vec::new();
        let mut i: usize = 0;
        proof {
            reveal(Seq::filter);
            assert(kept@ =~= all.take(0).filter(keep));
        }
        while i < self.channels.len()
            invariant
                i <= self.channels@.len(),
                all == self.channels@,
                keep == is_listed(listed@),
                kept@ == all.take(i as int).filter(keep),
            decreases self.channels@.len() - i,
        {
            proof {
                lemma_filter_step(all, i as int, keep);
                assert(listed.deep_view() =~= listed@);
            }
            if list_contains(listed, &self.channels[i]) {
                kept.push(self.channels[i]);
            }
            i += 1;
        }
        assert(all.take(self.channels@.len() as int) =~= all);
        self.channels = kept;
    }

    /// Ends a pass: `probes` are the nodes that were probed, `failures` what the
    /// nodes that did not open were last known for.
    pub fn settle_pass(&mut self, probes: Vec<SettledNode>, failures: Vec<Option<DeviceInventory>>) -> (r: Pass)
        requires
            old(self).counts_in_grace(),
        ensures
            final(self).counts_in_grace(),
            final(self).tick == old(self).tick,
            r.inventories@ == inventories_of(probes@, probes@.len() as int) + replayed(
                failures@,
                failures@.len() as int,
            ),
            r.all_complete == (failures@.len() == 0 && forall|i: int|
                0 <= i < probes@.len() ==> (#[trigger] probes@[i]).complete),
            r.all_healthy == (failures@.len() == 0 && forall|i: int|
                0 <= i < probes@.len() ==> (#[trigger] probes@[i]).healthy),
            final(self).channels@ == old(self).channels@.filter(not_evicted(probes@)),
            (final(self).cache@, final(self).misses@) == after_pass_with(
                old(self).cache@,
                old(self).misses@,
                outcomes_of(probes@, probes@.len() as int),
            ),
    {
        let ghost all = probes@;
        let ghost total = outcomes_of(all, all.len() as int);
        let mut all_complete = failures.len() == 0;
        let mut all_healthy = failures.len() == 0;
        self.drop_channels(&probes);
        let mut i: usize = 0;
        while i < probes.len()
            invariant
                i <= probes@.len(),
                all == probes@,
                all_complete == (failures@.len() == 0 && forall|k: int|
                    0 <= k < i ==> (#[trigger] all[k]).complete),
                all_healthy == (failures@.len() == 0 && forall|k: int| 0 <= k < i ==> (#[trigger] all[k]).healthy),
            decreases probes@.len() - i,
        {
            let probe: &SettledNode = &probes[i];
            assert(all[i as int] == *probe);
            all_complete = all_complete && probe.complete;
            all_healthy = all_healthy && probe.healthy;
            i += 1;
        }
        let (inventories, outcomes) = split(probes);
        let mut inventories = inventories;
        append_some(&mut inventories, failures);
        let seen = self.enter(outcomes);
        self.evict_unseen(&seen);
        Pass { inventories, all_complete, all_healthy }
    }

    /// Closes the channels that are to be opened anew.
    fn drop_channels(&mut self, probes: &Vec<SettledNode>)
        ensures
            *final(self) == (Enumerator { channels: final(self).channels, ..*old(self) }),
            final(self).channels@ == old(self).channels@.filter(not_evicted(probes@)),
    {
        let ghost keep = not_evicted(probes@);
        let ghost all = self.channels@;
        let mut kept: Vec<u64> = Vec::new();
        let mut i: usize = 0;
        proof {
            reveal(Seq::filter);
            assert(kept@ =~= all.take(0).filter(keep));
        }
        while i < self.channels.len()
            invariant
                i <= self.channels@.len(),
                all == self.channels@,
                keep == not_evicted(probes@),
                kept@ == all.take(i as int).filter(keep),
            decreases self.channels@.len() - i,
        {
            proof {
                lemma_filter_step(all, i as int, keep);
            }
            let node: u64 = self.channels[i];
            if !evicts(probes, node) {
                kept.push(node);
            }
            i += 1;
        }
        assert(all.take(self.channels@.len() as int) =~= all);
        self.channels = kept;
    }

    /// Enters the outcomes of a pass into the cache, and lists the devices that
    /// were there.
    fn enter(&mut self, outcomes: Vec<CacheOutcome>) -> (r: Vec<CacheKey>)
        ensures
            *final(self) == (Enumerator { cache: final(self).cache, ..*old(self) }),
            final(self).cache@ == entered(old(self).cache@, outcomes@, outcomes@.len() as int),
            r.deep_view().to_set() == seen_in(outcomes@, outcomes@.len() as int),
    {
        let ghost all = outcomes@;
        let ghost before = self.cache@;
        let mut waiting = reversed(outcomes);
        let mut seen: Vec<CacheKey> = Vec::new();
        let ghost mut n: int = 0;
        assert(seen.deep_view().to_set() =~= Set::<CacheKeyView>::empty());
        while waiting.len() > 0
            invariant
                n + waiting@.len() == all.len(),
                0 <= n,
                forall|k: int| 0 <= k < waiting@.len() ==> #[trigger] waiting@[k] == all[all.len() - 1 - k],
                self.misses == old(self).misses,
                self.channels == old(self).channels,
                self.tick == old(self).tick,
                self.cache@ == entered(before, all, n),
                seen.deep_view().to_set() == seen_in(all, n),
            decreases waiting@.len(),
        {
            let ghost so_far = seen.deep_view();
            let ghost w = waiting@;
            match waiting.pop() {
                Some(outcome) => {
                    assert(outcome == w[w.len() - 1]);
                    assert(outcome == all[n]);
                    match outcome {
                        CacheOutcome::Fresh(key, cached) | CacheOutcome::Update(key, cached) => {
                            let ghost k = key.deep_view();
                            seen.push(key.copy());
                            assert(seen.deep_view() =~= so_far.push(k));
                            self.cache.insert(key, cached);
                            proof {
                                lemma_push_to_set(so_far, k);
                            }
                        },
                        CacheOutcome::Seen(key) => {
                            let ghost k = key.deep_view();
                            seen.push(key);
                            assert(seen.deep_view() =~= so_far.push(k));
                            proof {
                                lemma_push_to_set(so_far, k);
                            }
                        },
                        CacheOutcome::Unkeyed => {},
                    }
                    proof {
                        n = n + 1;
                    }
                },
                None => {},
            }
        }
        seen
    }

    /// Counts the devices that were not `seen`, and drops those missing for
    /// longer than the grace. A device that was seen starts counting anew.
    pub fn evict_unseen(&mut self, seen: &Vec<CacheKey>)
        requires
            old(self).counts_in_grace(),
        ensures
            final(self).counts_in_grace(),
            final(self).channels == old(self).channels,
            final(self).tick == old(self).tick,
            final(self).cache@ == cache_after(old(self).cache@, old(self).misses@, seen.deep_view().to_set()),
            final(self).misses@ == misses_after(old(self).cache@, old(self).misses@, seen.deep_view().to_set()),
    {
        let ghost (cache, misses, there) = (self.cache@, self.misses@, seen.deep_view().to_set());
        let ghost (channels, tick) = (self.channels, self.tick);
        self.forget_misses(seen);
        let ghost cleared = self.misses@;
        let keys = cache_keys(&self.cache);
        let ghost all = keys.deep_view();
        let mut i: usize = 0;
        assert(self.cache@ =~= cache);
        while i < keys.len()
            invariant
                i <= keys@.len(),
                all == keys.deep_view(),
                all.no_duplicates(),
                all.to_set() == cache.dom(),
                there == seen.deep_view().to_set(),
                self.channels == channels,
                self.tick == tick,
                forall|k: CacheKeyView| #[trigger] misses.dom().contains(k) ==> misses[k] <= CACHE_MISS_GRACE,
                cleared == misses.remove_keys(there),
                forall|k: CacheKeyView| #[trigger] self.cache@.dom().contains(k) <==> cache.dom().contains(k) && !(
                all.take(i as int).contains(k) && drops(misses, there, k)),
                forall|k: CacheKeyView| #[trigger] self.cache@.dom().contains(k) ==> self.cache@[k] == cache[k],
                forall|k: CacheKeyView| #[trigger] self.misses@.dom().contains(k) <==> if all.take(
                    i as int,
                ).contains(k) && !there.contains(k) {
                    !drops(misses, there, k)
                } else {
                    cleared.dom().contains(k)
                },
                forall|k: CacheKeyView| #[trigger] self.misses@.dom().contains(k) ==> self.misses@[k] == if all.take(
                    i as int,
                ).contains(k) && !there.contains(k) {
                    missed(misses, k)
                } else {
                    cleared[k] as int
                },
            decreases keys@.len() - i,
        {
            let key: &CacheKey = &keys[i];
            let ghost k = key.deep_view();
            let ghost (t, u) = (all.take(i as int), all.take(i + 1));
            let ghost (c0, m0) = (self.cache@, self.misses@);
            proof {
                assert(all[i as int] == k);
                assert(all.contains(k));
                assert(all.to_set().contains(k));
                assert(cache.dom().contains(k));
                assert(!t.contains(k)) by {
                    if t.contains(k) {
                        let p = choose|p: int| 0 <= p < t.len() && t[p] == k;
                        assert(all[p] == all[i as int]);
                    }
                }
                assert(u =~= t.push(k));
                lemma_push_contains(t, k);
                assert(there.contains(k) == seen.deep_view().contains(k));
                assert(m0.dom().contains(k) == cleared.dom().contains(k));
            }
            if !list_contains(seen, key) {
                let count: u8 = match self.misses.get(key) {
                    Some(n) => *n + 1,
                    None => 1,
                };
                assert(count == missed(misses, k));
                if count > CACHE_MISS_GRACE {
                    let _ = self.cache.remove(key);
                    let _ = self.misses.remove(key);
                } else {
                    self.misses.insert(key.copy(), count);
                }
            }
            proof {
                let (c1, m1) = (self.cache@, self.misses@);
                assert forall|x: CacheKeyView| #[trigger] c1.dom().contains(x) <==> cache.dom().contains(x) && !(
                u.contains(x) && drops(misses, there, x)) by {
                    if x != k {
                        assert(c1.dom().contains(x) == c0.dom().contains(x));
                    }
                }
                assert forall|x: CacheKeyView| #[trigger] c1.dom().contains(x) implies c1[x] == cache[x] by {
                    assert(c0.dom().contains(x));
                }
                assert forall|x: CacheKeyView| #[trigger] m1.dom().contains(x) <==> if u.contains(x)
                    && !there.contains(x) {
                    !drops(misses, there, x)
                } else {
                    cleared.dom().contains(x)
                } by {
                    if x != k {
                        assert(m1.dom().contains(x) == m0.dom().contains(x));
                    }
                }
                assert forall|x: CacheKeyView| #[trigger] m1.dom().contains(x) implies m1[x] == if u.contains(x)
                    && !there.contains(x) {
                    missed(misses, x)
                } else {
                    cleared[x] as int
                } by {
                    if x != k {
                        assert(m0.dom().contains(x));
                    }
                }
            }
            i += 1;
        }
        proof {
            assert(all.take(keys@.len() as int) =~= all);
            assert forall|k: CacheKeyView| #[trigger] all.contains(k) <==> cache.dom().contains(k) by {
                assert(all.to_set().contains(k) == all.contains(k));
            }
            assert(self.cache@ =~= cache_after(cache, misses, there));
            let now = misses_after(cache, misses, there);
            assert forall|k: CacheKeyView| #[trigger] self.misses@.dom().contains(k) <==> now.dom().contains(k) by {
                assert(all.contains(k) == cache.dom().contains(k));
            }
            assert forall|k: CacheKeyView| #[trigger] self.misses@.dom().contains(k) implies self.misses@[k]
                == now[k] && self.misses@[k] <= CACHE_MISS_GRACE by {
                assert(all.contains(k) == cache.dom().contains(k));
            }
            assert(self.misses@ =~= now);
        }
    }

    /// Starts counting anew for the devices that were `seen`.
    fn forget_misses(&mut self, seen: &Vec<CacheKey>)
        ensures
            *final(self) == (Enumerator { misses: final(self).misses, ..*old(self) }),
            final(self).misses@ == old(self).misses@.remove_keys(seen.deep_view().to_set()),
    {
        let ghost before = self.misses@;
        let ghost all = seen.deep_view();
        let mut i: usize = 0;
        assert(before =~= before.remove_keys(all.take(0).to_set()));
        while i < seen.len()
            invariant
                i <= seen@.len(),
                all == seen.deep_view(),
                *self == (Enumerator { misses: self.misses, ..*old(self) }),
                self.misses@ == before.remove_keys(all.take(i as int).to_set()),
            decreases seen@.len() - i,
        {
            let _ = self.misses.remove(&seen[i]);
            proof {
                let k = all[i as int];
                assert(all.take(i + 1) =~= all.take(i as int).push(k));
                lemma_push_to_set(all.take(i as int), k);
                assert(self.misses@ =~= before.remove_keys(all.take(i + 1).to_set()));
            }
            i += 1;
        }
        assert(all.take(seen@.len() as int) =~= all);
    }
}

fn evicts(probes: &Vec<SettledNode>, node: u64) -> (r: bool)
    ensures
        r == is_evicted(probes@, node),
{
    let mut i: usize = 0;
    while i < probes.len()
        invariant
            i <= probes@.len(),
            forall|k: int|
                0 <= k < i ==> !((#[trigger] probes@[k]).node == node && probes@[k].settled.evict_channel),
        decreases probes@.len() - i,
    {
        if probes[i].node == node && probes[i].settled.evict_channel {
            assert(probes@[i as int].node == node);
            return true;
        }
        i += 1;
    }
    false
}

fn cache_keys(cache: &Table<CacheKey, Cached>) -> (r: Vec<CacheKey>)
    ensures
        r.deep_view().no_duplicates(),
        r.deep_view().to_set() == cache@.dom(),
{
    let mut keys: Vec<CacheKey> = Vec::new();
    let n: usize = cache.len();
    let mut i: usize = 0;
    assert(keys.deep_view() =~= cache.order().take(0));
    while i < n
        invariant
            i <= n,
            n == cache.order().len(),
            keys.deep_view() == cache.order().take(i as int),
        decreases n - i,
    {
        let ghost so_far = keys.deep_view();
        keys.push(cache.key_at(i).copy());
        assert(keys.deep_view() =~= so_far.push(cache.order()[i as int]));
        assert(cache.order().take(i + 1) =~= so_far.push(cache.order()[i as int]));
        i += 1;
    }
    proof {
        use_type_invariant(cache);
        cache.lemma_order();
        assert(cache.order().take(n as int) =~= cache.order());
    }
    keys
}

fn reversed<T>(list: Vec<T>) -> (r: Vec<T>)
    ensures
        r@.len() == list@.len(),
        forall|k: int| 0 <= k < r@.len() ==> #[trigger] r@[k] == list@[list@.len() - 1 - k],
{
    let ghost all = list@;
    let mut rest = list;
    let mut out: Vec<T> = Vec::new();
    while rest.len() > 0
        invariant
            rest@.len() + out@.len() == all.len(),
            rest@ == all.take(rest@.len() as int),
            forall|k: int| 0 <= k < out@.len() ==> #[trigger] out@[k] == all[all.len() - 1 - k],
        decreases rest@.len(),
    {
        match rest.pop() {
            Some(item) => {
                out.push(item);
            },
            None => {},
        }
        assert(rest@ =~= all.take(rest@.len() as int));
    }
    out
}

/// The inventories and the outcomes of the nodes, in order.
fn split(probes: Vec<SettledNode>) -> (r: (Vec<DeviceInventory>, Vec<CacheOutcome>))
    ensures
        r.0@ == inventories_of(probes@, probes@.len() as int),
        r.1@ == outcomes_of(probes@, probes@.len() as int),
{
    let ghost all = probes@;
    let mut waiting = reversed(probes);
    let mut inventories: Vec<DeviceInventory> = Vec::new();
    let mut outcomes: Vec<CacheOutcome> = Vec::new();
    let ghost mut n: int = 0;
    while waiting.len() > 0
        invariant
            n + waiting@.len() == all.len(),
            0 <= n,
            forall|k: int| 0 <= k < waiting@.len() ==> #[trigger] waiting@[k] == all[all.len() - 1 - k],
            inventories@ == inventories_of(all, n),
            outcomes@ == outcomes_of(all, n),
        decreases waiting@.len(),
    {
        let ghost w = waiting@;
        let ghost (v, o) = (inventories@, outcomes@);
        match waiting.pop() {
            Some(probe) => {
                assert(probe == w[w.len() - 1]);
                assert(probe == all[n]);
                let mut more = probe.outcomes;
                outcomes.append(&mut more);
                match probe.settled.inventory {
                    Some(inventory) => {
                        inventories.push(inventory);
                    },
                    None => {},
                }
                proof {
                    assert(inventories@ =~= v + some_inventory(all[n].settled.inventory));
                    assert(outcomes@ =~= o + all[n].outcomes@);
                    n = n + 1;
                }
            },
            None => {},
        }
    }
    (inventories, outcomes)
}

fn append_some(inventories: &mut Vec<DeviceInventory>, failures: Vec<Option<DeviceInventory>>)
    ensures
        final(inventories)@ == old(inventories)@ + replayed(failures@, failures@.len() as int),
{
    let ghost all = failures@;
    let ghost before = inventories@;
    let mut waiting = reversed(failures);
    let ghost mut n: int = 0;
    assert(before + replayed(all, 0) =~= before);
    while waiting.len() > 0
        invariant
            n + waiting@.len() == all.len(),
            0 <= n,
            forall|k: int| 0 <= k < waiting@.len() ==> #[trigger] waiting@[k] == all[all.len() - 1 - k],
            inventories@ == before + replayed(all, n),
        decreases waiting@.len(),
    {
        let ghost w = waiting@;
        let ghost v = inventories@;
        match waiting.pop() {
            Some(failure) => {
                assert(failure == w[w.len() - 1]);
                assert(failure == all[n]);
                match failure {
                    Some(inventory) => {
                        inventories.push(inventory);
                    },
                    None => {},
                }
                proof {
                    assert(inventories@ =~= v + some_inventory(all[n]));
                    assert((before + replayed(all, n)) + some_inventory(all[n]) =~= before + replayed(all, n + 1));
                    n = n + 1;
                }
            },
            None => {},
        }
    }
}

/// The cache and the misses after one more pass with these outcomes.
pub open spec fn after_pass_with(
    cache: Map<CacheKeyView, Cached>,
    misses: Map<CacheKeyView, u8>,
    outcomes: Seq<CacheOutcome>,
) -> (Map<CacheKeyView, Cached>, Map<CacheKeyView, u8>) {
    let n = outcomes.len() as int;
    let all = entered(cache, outcomes, n);
    let seen = seen_in(outcomes, n);
    (cache_after(all, misses, seen), misses_after(all, misses, seen))
}

/// The cache and the misses after the first `n` of these passes.
pub open spec fn after_passes(
    cache: Map<CacheKeyView, Cached>,
    misses: Map<CacheKeyView, u8>,
    passes: Seq<Seq<CacheOutcome>>,
    n: int,
) -> (Map<CacheKeyView, Cached>, Map<CacheKeyView, u8>)
    decreases n,
{
    if n <= 0 {
        (cache, misses)
    } else {
        let (c, m) = after_passes(cache, misses, passes, n - 1);
        after_pass_with(c, m, passes[n - 1])
    }
}

/// No pass tells of the device `key`.
pub open spec fn none_sees(passes: Seq<Seq<CacheOutcome>>, key: CacheKeyView) -> bool {
    forall|i: int|
        0 <= i < passes.len() ==> !seen_in(#[trigger] passes[i], passes[i].len() as int).contains(key)
}

/// A cached device that is missing is kept as it is for the whole grace, and
/// dropped in the pass after it, whatever the passes tell of other devices. It
/// stays dropped until it is seen again.
pub proof fn law_kept_for_the_grace_then_dropped(
    cache: Map<CacheKeyView, Cached>,
    misses: Map<CacheKeyView, u8>,
    passes: Seq<Seq<CacheOutcome>>,
    key: CacheKeyView,
)
    requires
        cache.dom().contains(key),
        !misses.dom().contains(key),
        none_sees(passes, key),
    ensures
        ({
            let after = after_passes(cache, misses, passes, passes.len() as int).0;
            &&& after.dom().contains(key) <==> passes.len() <= CACHE_MISS_GRACE
            &&& after.dom().contains(key) ==> after[key] == cache[key]
        }),
{
    lemma_passes_without(cache, misses, passes, key, passes.len() as int);
}

proof fn lemma_passes_without(
    cache: Map<CacheKeyView, Cached>,
    misses: Map<CacheKeyView, u8>,
    passes: Seq<Seq<CacheOutcome>>,
    key: CacheKeyView,
    n: int,
)
    requires
        cache.dom().contains(key),
        !misses.dom().contains(key),
        none_sees(passes, key),
        0 <= n <= passes.len(),
    ensures
        ({
            let (c, m) = after_passes(cache, misses, passes, n);
            &&& c.dom().contains(key) <==> n <= CACHE_MISS_GRACE
            &&& c.dom().contains(key) ==> c[key] == cache[key]
            &&& m.dom().contains(key) <==> 0 < n <= CACHE_MISS_GRACE
            &&& m.dom().contains(key) ==> m[key] == n
        }),
    decreases n,
{
    if n > 0 {
        lemma_passes_without(cache, misses, passes, key, n - 1);
        let (c, m) = after_passes(cache, misses, passes, n - 1);
        let outcomes = passes[n - 1];
        lemma_entered_other(c, outcomes, outcomes.len() as int, key);
    }
}

/// Outcomes that do not tell of a device leave its entry alone.
proof fn lemma_entered_other(
    cache: Map<CacheKeyView, Cached>,
    outcomes: Seq<CacheOutcome>,
    n: int,
    key: CacheKeyView,
)
    requires
        !seen_in(outcomes, n).contains(key),
    ensures
        entered(cache, outcomes, n).dom().contains(key) == cache.dom().contains(key),
        cache.dom().contains(key) ==> entered(cache, outcomes, n)[key] == cache[key],
    decreases n,
{
    if n > 0 {
        lemma_entered_other(cache, outcomes, n - 1, key);
    }
}

/// A device that was there starts counting anew: its misses are forgotten, and
/// it stays cached.
pub proof fn law_seen_device_counts_anew<T>(
    cache: Map<CacheKeyView, T>,
    misses: Map<CacheKeyView, u8>,
    seen: Set<CacheKeyView>,
    key: CacheKeyView,
)
    requires
        cache.dom().contains(key),
        seen.contains(key),
    ensures
        cache_after(cache, misses, seen).dom().contains(key),
        cache_after(cache, misses, seen)[key] == cache[key],
        !misses_after(cache, misses, seen).dom().contains(key),
{
}

/// A single enumeration goes on exactly if something is missing, there were fewer
/// than four passes, and the pass is not an answered one that came to the same as
/// an answered one before it.
pub proof fn law_enumeration_goes_on_until_settled(
    previous: Option<Seq<DeviceInventoryView>>,
    current: Seq<DeviceInventoryView>,
    all_complete: bool,
    all_healthy: bool,
    attempt: u8,
)
    ensures
        !stops(previous, current, all_complete, all_healthy, attempt) <==> !all_complete && attempt < 4 && !(
        all_healthy && previous is Some && previous->0 == current),
{
}

/// A device that is cached stays cached exactly if it was there or was missing
/// for no more than three passes in a row, this one counted. Its entry stays as
/// it was, and its misses are counted up, or forgotten if it was there or is
/// dropped.
pub proof fn law_missing_passes_are_counted<T>(
    cache: Map<CacheKeyView, T>,
    misses: Map<CacheKeyView, u8>,
    seen: Set<CacheKeyView>,
    key: CacheKeyView,
)
    ensures
        ({
            let (kept, counted) = (cache_after(cache, misses, seen), misses_after(cache, misses, seen));
            let count = if misses.dom().contains(key) {
                misses[key] as int
            } else {
                0
            };
            &&& kept.dom().contains(key) <==> cache.dom().contains(key) && (seen.contains(key) || count < 3)
            &&& kept.dom().contains(key) ==> kept[key] == cache[key]
            &&& seen.contains(key) ==> !counted.dom().contains(key)
            &&& cache.dom().contains(key) && !seen.contains(key) ==> {
                &&& counted.dom().contains(key) <==> kept.dom().contains(key)
                &&& kept.dom().contains(key) ==> counted[key] == count + 1
            }
            &&& !cache.dom().contains(key) && !seen.contains(key) ==> {
                &&& counted.dom().contains(key) <==> misses.dom().contains(key)
                &&& misses.dom().contains(key) ==> counted[key] == misses[key]
            }
        }),
{
}

/// A device was there exactly if an outcome names it: as probed for the first
/// time, as probed again, or as there.
pub proof fn law_named_device_was_there(outcomes: Seq<CacheOutcome>, key: CacheKeyView)
    ensures
        seen_in(outcomes, outcomes.len() as int).contains(key) <==> exists|i: int|
            0 <= i < outcomes.len() && match #[trigger] outcomes[i] {
                CacheOutcome::Fresh(k, _) => k.deep_view() == key,
                CacheOutcome::Update(k, _) => k.deep_view() == key,
                CacheOutcome::Seen(k) => k.deep_view() == key,
                CacheOutcome::Unkeyed => false,
            },
{
    lemma_named(outcomes, outcomes.len() as int, key);
}

proof fn lemma_named(outcomes: Seq<CacheOutcome>, n: int, key: CacheKeyView)
    requires
        0 <= n <= outcomes.len(),
    ensures
        seen_in(outcomes, n).contains(key) <==> exists|i: int|
            0 <= i < n && match #[trigger] outcomes[i] {
                CacheOutcome::Fresh(k, _) => k.deep_view() == key,
                CacheOutcome::Update(k, _) => k.deep_view() == key,
                CacheOutcome::Seen(k) => k.deep_view() == key,
                CacheOutcome::Unkeyed => false,
            },
    decreases n,
{
    if n > 0 {
        lemma_named(outcomes, n - 1, key);
        let last = outcomes[n - 1];
        if seen_in(outcomes, n).contains(key) && !seen_in(outcomes, n - 1).contains(key) {
            assert(last == outcomes[n - 1]);
        }
    }
}

/// The last probe of a device in a pass is what is cached of it afterwards.
pub proof fn law_last_probe_is_cached(
    cache: Map<CacheKeyView, Cached>,
    outcomes: Seq<CacheOutcome>,
    i: int,
    key: CacheKeyView,
    cached: Cached,
)
    requires
        0 <= i < outcomes.len(),
        match outcomes[i] {
            CacheOutcome::Fresh(k, c) => k.deep_view() == key && c == cached,
            CacheOutcome::Update(k, c) => k.deep_view() == key && c == cached,
            _ => false,
        },
        forall|j: int|
            i < j < outcomes.len() ==> match #[trigger] outcomes[j] {
                CacheOutcome::Fresh(k, _) => k.deep_view() != key,
                CacheOutcome::Update(k, _) => k.deep_view() != key,
                _ => true,
            },
    ensures
        entered(cache, outcomes, outcomes.len() as int).dom().contains(key),
        entered(cache, outcomes, outcomes.len() as int)[key] == cached,
{
    lemma_entered_last(cache, outcomes, i, outcomes.len() as int, key, cached);
}

proof fn lemma_entered_last(
    cache: Map<CacheKeyView, Cached>,
    outcomes: Seq<CacheOutcome>,
    i: int,
    n: int,
    key: CacheKeyView,
    cached: Cached,
)
    requires
        0 <= i < n <= outcomes.len(),
        match outcomes[i] {
            CacheOutcome::Fresh(k, c) => k.deep_view() == key && c == cached,
            CacheOutcome::Update(k, c) => k.deep_view() == key && c == cached,
            _ => false,
        },
        forall|j: int|
            i < j < n ==> match #[trigger] outcomes[j] {
                CacheOutcome::Fresh(k, _) => k.deep_view() != key,
                CacheOutcome::Update(k, _) => k.deep_view() != key,
                _ => true,
            },
    ensures
        entered(cache, outcomes, n).dom().contains(key),
        entered(cache, outcomes, n)[key] == cached,
    decreases n,
{
    if i < n - 1 {
        lemma_entered_last(cache, outcomes, i, n - 1, key, cached);
        assert(match outcomes[n - 1] {
            CacheOutcome::Fresh(k, _) => k.deep_view() != key,
            CacheOutcome::Update(k, _) => k.deep_view() != key,
            _ => true,
        });
    }
}

/// What is cached of a device that was not probed in a pass stays as it was.
pub proof fn law_unprobed_device_keeps_its_entry(
    cache: Map<CacheKeyView, Cached>,
    outcomes: Seq<CacheOutcome>,
    n: int,
    key: CacheKeyView,
)
    requires
        0 <= n <= outcomes.len(),
        forall|j: int|
            0 <= j < n ==> match #[trigger] outcomes[j] {
                CacheOutcome::Fresh(k, _) => k.deep_view() != key,
                CacheOutcome::Update(k, _) => k.deep_view() != key,
                _ => true,
            },
    ensures
        entered(cache, outcomes, n).dom().contains(key) <==> cache.dom().contains(key),
        cache.dom().contains(key) ==> entered(cache, outcomes, n)[key] == cache[key],
    decreases n,
{
    if n > 0 {
        law_unprobed_device_keeps_its_entry(cache, outcomes, n - 1, key);
        assert(match outcomes[n - 1] {
            CacheOutcome::Fresh(k, _) => k.deep_view() != key,
            CacheOutcome::Update(k, _) => k.deep_view() != key,
            _ => true,
        });
    }
}

/// What a pass caches and counts goes by all its outcomes.
pub proof fn law_pass_goes_by_its_outcomes(
    cache: Map<CacheKeyView, Cached>,
    misses: Map<CacheKeyView, u8>,
    outcomes: Seq<CacheOutcome>,
)
    ensures
        ({
            let n = outcomes.len() as int;
            let (kept, counted) = after_pass_with(cache, misses, outcomes);
            &&& kept == cache_after(entered(cache, outcomes, n), misses, seen_in(outcomes, n))
            &&& counted == misses_after(entered(cache, outcomes, n), misses, seen_in(outcomes, n))
        }),
{
}

/// A pass takes in the outcomes and reports the inventories of all its nodes, in
/// the order of the nodes, and of the nodes that did not open what they were last
/// known for.
pub proof fn law_every_node_is_reported(
    nodes: Seq<SettledNode>,
    n: int,
    failures: Seq<Option<DeviceInventory>>,
    m: int,
)
    requires
        0 <= n < nodes.len(),
        0 <= m < failures.len(),
    ensures
        outcomes_of(nodes, 0).len() == 0 && inventories_of(nodes, 0).len() == 0 && replayed(failures, 0).len() == 0,
        outcomes_of(nodes, n + 1) == outcomes_of(nodes, n) + nodes[n].outcomes@,
        match nodes[n].settled.inventory {
            Some(inventory) => inventories_of(nodes, n + 1) == inventories_of(nodes, n).push(inventory),
            None => inventories_of(nodes, n + 1) == inventories_of(nodes, n),
        },
        match failures[m] {
            Some(inventory) => replayed(failures, m + 1) == replayed(failures, m).push(inventory),
            None => replayed(failures, m + 1) == replayed(failures, m),
        },
{
    if nodes[n].settled.inventory is None {
        assert(inventories_of(nodes, n + 1) =~= inventories_of(nodes, n));
    } else {
        assert(inventories_of(nodes, n + 1) =~= inventories_of(nodes, n).push(nodes[n].settled.inventory->0));
    }
    if failures[m] is None {
        assert(replayed(failures, m + 1) =~= replayed(failures, m));
    } else {
        assert(replayed(failures, m + 1) =~= replayed(failures, m).push(failures[m]->0));
    }
}

/// A channel stays open over a pass exactly if no probe of its node calls for
/// opening it anew, and over a new listing exactly if its node is listed.
pub proof fn law_channels_close_with_cause(channels: Seq<u64>, nodes: Seq<SettledNode>, listed: Seq<u64>, node: u64)
    ensures
        channels.filter(not_evicted(nodes)).contains(node) <==> channels.contains(node) && forall|i: int|
            0 <= i < nodes.len() && (#[trigger] nodes[i]).node == node ==> !nodes[i].settled.evict_channel,
        channels.filter(is_listed(listed)).contains(node) <==> channels.contains(node) && listed.contains(node),
{
    crate::seqs::lemma_filter_contains(channels, not_evicted(nodes), node);
    crate::seqs::lemma_filter_contains(channels, is_listed(listed), node);
}

/// The counts are in the grace exactly if none is above three.
pub proof fn law_counts_end_with_the_grace(all: Enumerator, key: CacheKeyView)
    requires
        all.counts_in_grace(),
        all.misses@.dom().contains(key),
    ensures
        all.misses@[key] <= 3,
{
}

/// A single enumeration makes four passes at most, 300 milliseconds apart.
pub proof fn law_limits_of_an_enumeration()
    ensures
        ONESHOT_ATTEMPTS == 4,
        ONESHOT_RETRY_DELAY_MS == 300,
{
}

} // verus!
