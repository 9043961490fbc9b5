//! The inventory watcher: when it enumerates, and what it reports.

use vstd::prelude::*;
use crate::device::DeviceInventory;

verus! {

/// So many enumerations must fail, before one has ever succeeded, for
/// enumeration to count as unavailable.
pub const INITIAL_FAILURE_LIMIT: u8 = 3;

/// The pause in nanoseconds between a hotplug event and the enumeration: a node
/// that was just connected must first be registered.
pub const HOTPLUG_SETTLE: u64 = 400_000_000;

/// A tick that is late by more than this many nanoseconds means that the system
/// slept.
pub const WAKE_GAP: u64 = 60_000_000_000;

/// What the watcher reports.
#[derive(Debug, PartialEq, Eq)]
pub enum InventoryEvent {
    /// A completed enumeration; an empty one found no devices.
    Snapshot(Vec<DeviceInventory>),
    /// Enumeration never worked.
    Unavailable,
    /// The system slept and woke, so the devices may have lost power.
    SystemWake,
}

/// What the watcher remembers of earlier enumerations.
#[derive(Debug, PartialEq, Eq)]
pub struct WatchState {
    /// An enumeration has been completed.
    pub succeeded: bool,
    /// The failures in a row, counted up to the first success.
    pub initial_failures: u8,
}

/// The state after another failure.
pub open spec fn failed_once_more(state: WatchState) -> WatchState {
    if state.succeeded || state.initial_failures == u8::MAX {
        state
    } else {
        WatchState { succeeded: false, initial_failures: (state.initial_failures + 1) as u8 }
    }
}

/// Another failure makes enumeration count as unavailable.
pub open spec fn becomes_unavailable(state: WatchState) -> bool {
    !state.succeeded && failed_once_more(state).initial_failures == INITIAL_FAILURE_LIMIT
}

/// The state after `n` failures.
pub open spec fn failed_times(state: WatchState, n: nat) -> WatchState
    decreases n,
{
    if n == 0 {
        state
    } else {
        failed_once_more(failed_times(state, (n - 1) as nat))
    }
}

impl WatchState {
    /// Nothing has been enumerated yet.
    pub open spec fn is_fresh(self) -> bool {
        !self.succeeded && self.initial_failures == 0
    }

    pub fn new() -> (r: Self)
        ensures
            r.is_fresh(),
    {
        WatchState { succeeded: false, initial_failures: 0 }
    }

    /// What is reported of an enumeration. A completed one is always passed on,
    /// an empty one too. A failed one is passed over, so that the last snapshot
    /// stays in force; only when the first ones all fail, that is reported, and
    /// once.
    pub fn classify<E>(&mut self, result: Result<Vec<DeviceInventory>, E>) -> (r: Option<InventoryEvent>)
        ensures
            match result {
                Ok(inventory) => {
                    &&& r == Some(InventoryEvent::Snapshot(inventory))
                    &&& *final(self) == (WatchState { succeeded: true, ..*old(self) })
                },
                Err(_) => {
                    &&& *final(self) == failed_once_more(*old(self))
                    &&& r == if becomes_unavailable(*old(self)) {
                        Some(InventoryEvent::Unavailable)
                    } else {
                        None
                    }
                },
            },
    {
        match result {
            Ok(inventory) => {
                self.succeeded = true;
                Some(InventoryEvent::Snapshot(inventory))
            },
            Err(_) => {
                if self.succeeded {
                    return None;
                }
                self.initial_failures = self.initial_failures.saturating_add(1);
                if self.initial_failures == INITIAL_FAILURE_LIMIT {
                    Some(InventoryEvent::Unavailable)
                } else {
                    None
                }
            },
        }
    }
}

/// From the start on, failures are reported at exactly one of them: the one that
/// reaches the limit.
pub proof fn law_unavailable_is_reported_once(state: WatchState, n: nat)
    requires
        state.is_fresh(),
    ensures
        becomes_unavailable(failed_times(state, n)) <==> n + 1 == INITIAL_FAILURE_LIMIT,
{
    lemma_failed_times(state, n);
}

proof fn lemma_failed_times(state: WatchState, n: nat)
    requires
        state.is_fresh(),
    ensures
        !failed_times(state, n).succeeded,
        failed_times(state, n).initial_failures == if n <= u8::MAX {
            n as int
        } else {
            u8::MAX as int
        },
    decreases n,
{
    if n > 0 {
        lemma_failed_times(state, (n - 1) as nat);
    }
}

/// Once an enumeration has succeeded, no failure is ever reported.
pub proof fn law_no_report_after_a_success(state: WatchState, n: nat)
    requires
        state.succeeded,
    ensures
        failed_times(state, n) == state,
        !becomes_unavailable(failed_times(state, n)),
    decreases n,
{
    if n > 0 {
        law_no_report_after_a_success(state, (n - 1) as nat);
    }
}

/// How a wait for the next enumeration ended.
#[derive(Clone, Copy, Debug, PartialEq, Eq, Structural)]
pub enum WaitEnd {
    /// The period has passed.
    Period,
    /// A device was plugged in or out.
    Hotplug,
    /// The hotplug events have come to an end.
    StreamClosed,
}

/// What was left in the hotplug stream.
#[derive(Clone, Copy, Debug, PartialEq, Eq, Structural)]
pub enum Drained {
    Event,
    Nothing,
    Closed,
}

/// The watcher's loop. Times are in nanoseconds of the wall clock, which goes on
/// while the system sleeps.
#[derive(Debug, PartialEq, Eq)]
pub struct Watcher {
    pub state: WatchState,
    pub period: u64,
    pub last_tick: u64,
    /// Hotplug events can be waited for.
    pub hotplug: bool,
}

impl Watcher {
    pub fn new(period: u64, now: u64, hotplug: bool) -> (r: Self)
        ensures
            r.state.is_fresh(),
            r.period == period,
            r.last_tick == now,
            r.hotplug == hotplug,
    {
        Watcher { state: WatchState::new(), period, last_tick: now, hotplug }
    }

    /// Starts a tick: whether the system has slept since the last one. Nothing
    /// follows from a clock that was set back.
    pub fn begin_tick(&mut self, now: u64) -> (r: bool)
        ensures
            r == (now - old(self).last_tick > old(self).period + WAKE_GAP),
            *final(self) == (Watcher { last_tick: now, ..*old(self) }),
    {
        let woke = now >= self.last_tick && (now - self.last_tick) as u128 > self.period as u128 + WAKE_GAP as u128;
        self.last_tick = now;
        woke
    }

    /// What follows a wait: whether to let the nodes settle and drain the
    /// hotplug events before the next enumeration.
    pub fn after_wait(&mut self, end: WaitEnd) -> (r: bool)
        ensures
            r == (end == WaitEnd::Hotplug),
            *final(self) == (Watcher {
                hotplug: old(self).hotplug && end != WaitEnd::StreamClosed,
                ..*old(self)
            }),
    {
        if end == WaitEnd::StreamClosed {
            self.hotplug = false;
        }
        end == WaitEnd::Hotplug
    }

    /// What follows one look into the hotplug stream: whether to look again. One
    /// enumeration covers all nodes that have just arrived.
    pub fn after_drain(&mut self, found: Drained) -> (r: bool)
        ensures
            r == (found == Drained::Event),
            *final(self) == (Watcher { hotplug: old(self).hotplug && found != Drained::Closed, ..*old(self) }),
    {
        if found == Drained::Closed {
            self.hotplug = false;
        }
        found == Drained::Event
    }
}

/// Before the first success every failure is counted, up to the end of the
/// count, and the third one in a row makes enumeration count as unavailable.
pub proof fn law_failures_are_counted(state: WatchState)
    ensures
        !state.succeeded && state.initial_failures < u8::MAX ==> failed_once_more(state).initial_failures
            == state.initial_failures + 1,
        state.succeeded || state.initial_failures == u8::MAX ==> failed_once_more(state) == state,
        failed_once_more(state).succeeded == state.succeeded,
        becomes_unavailable(state) <==> !state.succeeded && state.initial_failures == 2,
{
}

/// At the start nothing has succeeded and nothing has failed.
pub proof fn law_nothing_is_counted_at_first(state: WatchState)
    ensures
        state.is_fresh() <==> !state.succeeded && state.initial_failures == 0,
{
}

/// A hotplug event is given 400 milliseconds to settle, and a tick that is late
/// by more than a minute means that the system slept.
pub proof fn law_times_of_the_watcher()
    ensures
        HOTPLUG_SETTLE == 400_000_000,
        WAKE_GAP == 60_000_000_000,
        INITIAL_FAILURE_LIMIT == 3,
{
}

} // verus!
