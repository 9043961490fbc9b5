//! Capture sessions: one per device, started and stopped as the plans change,
//! and what a captured input leads to.

use vstd::prelude::*;
use crate::buttons::{Action, ButtonId, GestureDirection};
use crate::capture_plan::DeviceCapturePlan;
use crate::config::DEFAULT_THUMBWHEEL_SENSITIVITY;
use crate::device::{DeviceRoute, DeviceRouteView};
use crate::seqs::lemma_push_contains;
use crate::table::Table;
use crate::text::text_eq;
use crate::value::Value;
use crate::wheel::{
    action_step, advance, is_custom, law_room_is_kept, scroll_step, scrolls, unturned, usable, WheelAccumulators,
    WheelDirection, WheelOutput,
};

verus! {

/// What a session takes over.
#[derive(Debug, PartialEq, Eq)]
pub struct CaptureSpec {
    pub capture_thumbwheel: bool,
    /// The gesture button is followed with its movement.
    pub divert_gesture_button: bool,
    pub divert_buttons: Vec<(u16, ButtonId)>,
}

/// The meaning of a [`CaptureSpec`].
pub struct CaptureSpecView {
    pub capture_thumbwheel: bool,
    pub divert_gesture_button: bool,
    pub divert_buttons: Seq<(u16, ButtonId)>,
}

impl DeepView for CaptureSpec {
    type V = CaptureSpecView;

    open spec fn deep_view(&self) -> CaptureSpecView {
        CaptureSpecView {
            capture_thumbwheel: self.capture_thumbwheel.deep_view(),
            divert_gesture_button: self.divert_gesture_button.deep_view(),
            divert_buttons: self.divert_buttons.deep_view(),
        }
    }
}

impl Value for CaptureSpec {
    fn same(&self, other: &Self) -> (r: bool) {
        self.capture_thumbwheel.same(&other.capture_thumbwheel)
            && self.divert_gesture_button.same(&other.divert_gesture_button)
            && self.divert_buttons.same(&other.divert_buttons)
    }

    fn copy(&self) -> (r: Self) {
        CaptureSpec {
            capture_thumbwheel: self.capture_thumbwheel.copy(),
            divert_gesture_button: self.divert_gesture_button.copy(),
            divert_buttons: self.divert_buttons.copy(),
        }
    }
}

/// A session that the manager keeps track of.
#[derive(Debug, PartialEq, Eq)]
pub struct RunningSession {
    pub route: DeviceRoute,
    pub spec: CaptureSpec,
    /// It can still be told to stop; afterwards it only restores its controls.
    pub stop: bool,
    /// The number under which it was started.
    pub epoch: u64,
}

/// The meaning of a [`RunningSession`].
pub struct RunningSessionView {
    pub route: DeviceRouteView,
    pub spec: CaptureSpecView,
    pub stop: bool,
    pub epoch: u64,
}

impl DeepView for RunningSession {
    type V = RunningSessionView;

    open spec fn deep_view(&self) -> RunningSessionView {
        RunningSessionView {
            route: self.route.deep_view(),
            spec: self.spec.deep_view(),
            stop: self.stop.deep_view(),
            epoch: self.epoch.deep_view(),
        }
    }
}

impl Value for RunningSession {
    fn same(&self, other: &Self) -> (r: bool) {
        self.route.same(&other.route)
            && self.spec.same(&other.spec)
            && self.stop.same(&other.stop)
            && self.epoch.same(&other.epoch)
    }

    fn copy(&self) -> (r: Self) {
        RunningSession {
            route: self.route.copy(),
            spec: self.spec.copy(),
            stop: self.stop.copy(),
            epoch: self.epoch.copy(),
        }
    }
}

/// A session to start.
#[derive(Debug, PartialEq, Eq)]
pub struct SessionStart {
    pub key: String,
    pub route: DeviceRoute,
    pub spec: CaptureSpec,
}

/// The meaning of a [`SessionStart`].
pub struct SessionStartView {
    pub key: Seq<char>,
    pub route: DeviceRouteView,
    pub spec: CaptureSpecView,
}

impl DeepView for SessionStart {
    type V = SessionStartView;

    open spec fn deep_view(&self) -> SessionStartView {
        SessionStartView {
            key: self.key.deep_view(),
            route: self.route.deep_view(),
            spec: self.spec.deep_view(),
        }
    }
}

impl Value for SessionStart {
    fn same(&self, other: &Self) -> (r: bool) {
        self.key.same(&other.key)
            && self.route.same(&other.route)
            && self.spec.same(&other.spec)
    }

    fn copy(&self) -> (r: Self) {
        SessionStart {
            key: self.key.copy(),
            route: self.route.copy(),
            spec: self.spec.copy(),
        }
    }
}

/// What to do with the report that a session has ended.
#[derive(Clone, Copy, Debug, PartialEq, Eq, Structural)]
pub enum DoneAction {
    /// The report is of a session that is no longer tracked.
    Ignore,
    /// The tracked session has ended, so its device may get another one. The
    /// end is unexpected unless the session was told to stop.
    Remove { unexpected: bool },
}

/// The thumb wheel must be taken over: its rotation is scaled, or its bindings
/// are not the default ones.
pub open spec fn armed(plan: &DeviceCapturePlan) -> bool {
    plan.thumbwheel_sensitivity != DEFAULT_THUMBWHEEL_SENSITIVITY || plan.thumbwheel_bindings_nondefault
}

/// What the session of `plan` takes over.
pub open spec fn wanted_spec(plan: &DeviceCapturePlan) -> CaptureSpecView {
    CaptureSpecView {
        capture_thumbwheel: armed(plan),
        divert_gesture_button: plan.gesture_bindings@.len() > 0,
        divert_buttons: plan.divert_buttons.deep_view(),
    }
}

/// Whether the thumb wheel must be taken over.
pub fn thumbwheel_armed(plan: &DeviceCapturePlan) -> (r: bool)
    ensures
        r == armed(plan),
{
    plan.thumbwheel_sensitivity != DEFAULT_THUMBWHEEL_SENSITIVITY || plan.thumbwheel_bindings_nondefault
}

/// What the session of `plan` takes over.
pub fn spec_for(plan: &DeviceCapturePlan) -> (r: CaptureSpec)
    ensures
        r.deep_view() == wanted_spec(plan),
{
    CaptureSpec {
        capture_thumbwheel: thumbwheel_armed(plan),
        divert_gesture_button: plan.gesture_bindings.len() > 0,
        divert_buttons: plan.divert_buttons.copy(),
    }
}

/// What to do when the session started under `done_epoch` has ended while
/// `live` is tracked for its device.
pub fn on_done(done_epoch: u64, live: Option<&RunningSession>) -> (r: DoneAction)
    ensures
        r == match live {
            Some(session) => if session.epoch == done_epoch {
                DoneAction::Remove { unexpected: session.stop }
            } else {
                DoneAction::Ignore
            },
            None => DoneAction::Ignore,
        },
{
    match live {
        Some(session) => if session.epoch == done_epoch {
            DoneAction::Remove { unexpected: session.stop }
        } else {
            DoneAction::Ignore
        },
        None => DoneAction::Ignore,
    }
}

/// The sessions that the first `n` plans call for; of two plans with one key the
/// later one counts.
pub open spec fn wanted(plans: Seq<DeviceCapturePlan>, n: int) -> Map<Seq<char>, (DeviceRouteView, CaptureSpecView)>
    decreases n,
{
    if n <= 0 {
        Map::empty()
    } else {
        wanted(plans, n - 1).insert(
            plans[n - 1].config_key@,
            (plans[n - 1].route.deep_view(), wanted_spec(&plans[n - 1])),
        )
    }
}

/// The sessions that are called for: none while pairing needs the receiver.
pub open spec fn wanted_now(
    plans: Seq<DeviceCapturePlan>,
    pairing: bool,
) -> Map<Seq<char>, (DeviceRouteView, CaptureSpecView)> {
    if pairing {
        Map::empty()
    } else {
        wanted(plans, plans.len() as int)
    }
}

/// `session` is what `want` calls for under `key`.
pub open spec fn fits(
    want: Map<Seq<char>, (DeviceRouteView, CaptureSpecView)>,
    key: Seq<char>,
    session: RunningSessionView,
) -> bool {
    want.dom().contains(key) && want[key] == (session.route, session.spec)
}

/// The meaning of all sessions, by key.
pub open spec fn session_views(sessions: Map<Seq<char>, RunningSession>) -> Map<Seq<char>, RunningSessionView> {
    Map::new(|k: Seq<char>| sessions.dom().contains(k), |k: Seq<char>| sessions[k].deep_view())
}

/// What a tick makes of the tracked sessions: those not called for are told to
/// stop, and stay tracked until they have ended.
pub open spec fn told_to_stop(
    sessions: Map<Seq<char>, RunningSessionView>,
    want: Map<Seq<char>, (DeviceRouteView, CaptureSpecView)>,
) -> Map<Seq<char>, RunningSessionView> {
    Map::new(
        |k: Seq<char>| sessions.dom().contains(k),
        |k: Seq<char>|
            RunningSessionView { stop: sessions[k].stop && fits(want, k, sessions[k]), ..sessions[k] },
    )
}

/// The session of `key` is told to stop now.
pub open spec fn stops_now(
    sessions: Map<Seq<char>, RunningSessionView>,
    want: Map<Seq<char>, (DeviceRouteView, CaptureSpecView)>,
    key: Seq<char>,
) -> bool {
    sessions.dom().contains(key) && sessions[key].stop && !fits(want, key, sessions[key])
}

/// A session for `key` is to be started: it is called for, and none is tracked.
pub open spec fn starts_now(
    sessions: Map<Seq<char>, RunningSessionView>,
    want: Map<Seq<char>, (DeviceRouteView, CaptureSpecView)>,
    key: Seq<char>,
) -> bool {
    want.dom().contains(key) && !sessions.dom().contains(key)
}

/// What a tick calls for.
#[derive(Debug, PartialEq, Eq)]
pub struct TickPlan {
    /// The keys of the sessions to tell to stop.
    pub stop: Vec<String>,
    /// The sessions to start as soon as the receiver can be used.
    pub start: Vec<SessionStart>,
}

/// `stop` lists the keys of the sessions that are told to stop now, each once.
pub open spec fn lists_stops(
    sessions: Map<Seq<char>, RunningSessionView>,
    want: Map<Seq<char>, (DeviceRouteView, CaptureSpecView)>,
    stop: Seq<Seq<char>>,
) -> bool {
    &&& stop.no_duplicates()
    &&& forall|k: Seq<char>| #[trigger] stop.contains(k) <==> stops_now(sessions, want, k)
}

/// `start` lists what is to be started, each key once.
pub open spec fn lists_starts(
    sessions: Map<Seq<char>, RunningSessionView>,
    want: Map<Seq<char>, (DeviceRouteView, CaptureSpecView)>,
    start: Seq<SessionStartView>,
) -> bool {
    &&& forall|i: int, j: int| 0 <= i < j < start.len() ==> (#[trigger] start[i]).key != (#[trigger] start[j]).key
    &&& forall|i: int|
        0 <= i < start.len() ==> starts_now(sessions, want, (#[trigger] start[i]).key) && want[start[i].key] == (
            start[i].route,
            start[i].spec,
        )
    &&& forall|k: Seq<char>| #[trigger] starts_now(sessions, want, k) ==> has_start(start, k)
}

pub open spec fn has_start(start: Seq<SessionStartView>, key: Seq<char>) -> bool {
    exists|i: int| 0 <= i < start.len() && (#[trigger] start[i]).key == key
}

/// The sessions, and what is pending of the thumb wheels.
pub struct Manager {
    pub sessions: Table<String, RunningSession>,
    pub accumulators: Table<String, WheelAccumulators>,
    pub epoch: u64,
}

impl Manager {
    /// No session.
    pub fn new() -> (r: Self)
        ensures
            r.sessions@ == Map::<Seq<char>, RunningSession>::empty(),
            r.accumulators@ == Map::<Seq<char>, WheelAccumulators>::empty(),
            r.epoch == 0,
            r.has_room(),
    {
        Manager { sessions: Table::new(), accumulators: Table::new(), epoch: 0 }
    }

    /// The meaning of the sessions, by key.
    pub open spec fn tracked_sessions(&self) -> Map<Seq<char>, RunningSessionView> {
        session_views(self.sessions@)
    }

    /// One more event of any wheel stays within the machine's range.
    pub open spec fn has_room(&self) -> bool {
        forall|k: Seq<char>| #[trigger] self.accumulators@.dom().contains(k) ==> self.accumulators@[k].has_room()
    }

    /// The regular look at the plans: tells sessions that are not called for to
    /// stop, forgets what is pending for devices without a plan, and lists what
    /// is to be started. While `pairing` wants the receiver, every session is
    /// told to stop. The key of a session that was told to stop is free only
    /// once that session has ended: its last writes must not run into those of
    /// a new one.
    pub fn tick(&mut self, plans: &Vec<DeviceCapturePlan>, pairing: bool) -> (r: TickPlan)
        ensures
            final(self).epoch == old(self).epoch,
            final(self).tracked_sessions() == told_to_stop(
                old(self).tracked_sessions(),
                wanted_now(plans@, pairing),
            ),
            final(self).accumulators@ == old(self).accumulators@.restrict(wanted_now(plans@, pairing).dom()),
            lists_stops(old(self).tracked_sessions(), wanted_now(plans@, pairing), r.stop.deep_view()),
            lists_starts(old(self).tracked_sessions(), wanted_now(plans@, pairing), r.start.deep_view()),
            old(self).has_room() ==> final(self).has_room(),
    {
        let ghost want = wanted_now(plans@, pairing);
        let table = want_table(plans, pairing);
        let stop = self.stop_unwanted(&table, Ghost(want));
        let mut keys: Vec<String> = Vec::new();
        let mut start: Vec<SessionStart> = Vec::new();
        let n: usize = table.len();
        let ghost before = old(self).tracked_sessions();
        let mut i: usize = 0;
        proof {
            assert(keys.deep_view() =~= table.order().take(0));
            use_type_invariant(&table);
            table.lemma_order();
        }
        while i < n
            invariant
                i <= n,
                n == table.order().len(),
                table.order().no_duplicates(),
                table.order().to_set() == table@.dom(),
                want_views(table@) == want,
                before == old(self).tracked_sessions(),
                self.tracked_sessions() == told_to_stop(before, want),
                keys.deep_view() == table.order().take(i as int),
                forall|a: int, b: int|
                    0 <= a < b < start@.len() ==> (#[trigger] start.deep_view()[a]).key != (
                    #[trigger] start.deep_view()[b]).key,
                forall|a: int|
                    0 <= a < start@.len() ==> starts_now(before, want, (#[trigger] start.deep_view()[a]).key)
                        && want[start.deep_view()[a].key] == (start.deep_view()[a].route, start.deep_view()[a].spec)
                        && table.order().take(i as int).contains(start.deep_view()[a].key),
                forall|k: Seq<char>|
                    #[trigger] starts_now(before, want, k) && table.order().take(i as int).contains(k) ==> has_start(
                        start.deep_view(),
                        k,
                    ),
            decreases n - i,
        {
            let key: &String = table.key_at(i);
            let entry: &(DeviceRoute, CaptureSpec) = table.value_at(i);
            let ghost k = table.order()[i as int];
            let ghost so_far = start.deep_view();
            let ghost earlier = keys.deep_view();
            keys.push(key.copy());
            assert(keys.deep_view() =~= earlier.push(k));
            assert(table.order().take(i + 1) =~= table.order().take(i as int).push(k));
            assert(want[k] == (entry.0.deep_view(), entry.1.deep_view()));
            assert(self.sessions@.dom().contains(k) == before.dom().contains(k)) by {
                assert(self.tracked_sessions().dom().contains(k) == self.sessions@.dom().contains(k));
            }
            if !self.sessions.contains(key) {
                let one = SessionStart { key: key.copy(), route: entry.0.copy(), spec: entry.1.copy() };
                let ghost v = one.deep_view();
                start.push(one);
                proof {
                    assert(start.deep_view() =~= so_far.push(v));
                    assert forall|a: int| 0 <= a < so_far.len() implies (#[trigger] so_far[a]).key != k by {
                        let t = table.order().take(i as int);
                        assert(t.contains(so_far[a].key));
                        let p = choose|p: int| 0 <= p < t.len() && t[p] == so_far[a].key;
                        assert(table.order()[p] != table.order()[i as int]);
                    }
                    assert forall|a: int| 0 <= a < so_far.len() implies start.deep_view()[a] == #[trigger] so_far[a] by {}
                }
            }
            proof {
                let now = start.deep_view();
                let (t, u) = (table.order().take(i as int), table.order().take(i + 1));
                lemma_push_contains(t, k);
                assert forall|a: int| 0 <= a < now.len() implies u.contains((#[trigger] now[a]).key) by {
                    if a < so_far.len() {
                        assert(now[a] == so_far[a]);
                        assert(t.contains(so_far[a].key));
                    }
                }
                assert forall|x: Seq<char>| #[trigger] starts_now(before, want, x) && u.contains(x) implies has_start(
                    now,
                    x,
                ) by {
                    if t.contains(x) {
                        assert(has_start(so_far, x));
                        let a = choose|a: int| 0 <= a < so_far.len() && (#[trigger] so_far[a]).key == x;
                        assert(now[a] == so_far[a]);
                    } else {
                        assert(now[so_far.len() as int].key == x);
                    }
                }
            }
            i += 1;
        }
        proof {
            assert(table.order().take(n as int) =~= table.order());
            assert forall|k: Seq<char>| #[trigger] starts_now(before, want, k) implies has_start(
                start.deep_view(),
                k,
            ) by {
                assert(want_views(table@).dom().contains(k));
                assert(table.order().to_set().contains(k));
            }
            assert(keys.deep_view().to_set() =~= want.dom()) by {
                assert(want_views(table@).dom() =~= table@.dom());
            }
        }
        self.accumulators.retain_keys(&keys);
        TickPlan { stop, start }
    }

    /// Tells the sessions that are not called for to stop, and lists them.
    fn stop_unwanted(
        &mut self,
        table: &Table<String, (DeviceRoute, CaptureSpec)>,
        Ghost(want): Ghost<Map<Seq<char>, (DeviceRouteView, CaptureSpecView)>>,
    ) -> (r: Vec<String>)
        requires
            want_views(table@) == want,
        ensures
            final(self).epoch == old(self).epoch,
            final(self).accumulators == old(self).accumulators,
            final(self).tracked_sessions() == told_to_stop(old(self).tracked_sessions(), want),
            lists_stops(old(self).tracked_sessions(), want, r.deep_view()),
    {
        let keys = session_keys(&self.sessions);
        let ghost before = self.tracked_sessions();
        let ghost (epoch, accumulators) = (self.epoch, self.accumulators);
        let mut stop: Vec<String> = Vec::new();
        let mut i: usize = 0;
        assert(stop.deep_view().no_duplicates());
        while i < keys.len()
            invariant
                i <= keys@.len(),
                want_views(table@) == want,
                self.epoch == epoch,
                self.accumulators == accumulators,
                keys.deep_view().no_duplicates(),
                keys.deep_view().to_set() == before.dom(),
                self.tracked_sessions().dom() == before.dom(),
                forall|k: Seq<char>| #[trigger] before.dom().contains(k) ==> self.tracked_sessions()[k] == if
                    keys.deep_view().take(i as int).contains(k) {
                    told_to_stop(before, want)[k]
                } else {
                    before[k]
                },
                stop.deep_view().no_duplicates(),
                forall|k: Seq<char>| #[trigger] stop.deep_view().contains(k) <==> stops_now(before, want, k)
                    && keys.deep_view().take(i as int).contains(k),
            decreases keys@.len() - i,
        {
            let key: &String = &keys[i];
            let ghost k = key.deep_view();
            let ghost (t, u) = (keys.deep_view().take(i as int), keys.deep_view().take(i + 1));
            let ghost so_far = stop.deep_view();
            let ghost sessions_before = self.tracked_sessions();
            proof {
                assert(keys.deep_view()[i as int] == k);
                assert(keys.deep_view().contains(k));
                assert(before.dom().contains(k));
                assert(!t.contains(k)) by {
                    if t.contains(k) {
                        let p = choose|p: int| 0 <= p < t.len() && t[p] == k;
                        assert(keys.deep_view()[p] == keys.deep_view()[i as int]);
                    }
                }
                assert(u =~= t.push(k));
                assert(sessions_before.dom().contains(k));
                lemma_push_contains(t, k);
            }
            let mut told = false;
            if let Some(session) = self.sessions.get_mut(key) {
                proof {
                    assert(session.deep_view() == before[k]);
                }
                let keep = match table.get(key) {
                    Some(entry) => {
                        assert(want[k] == (entry.0.deep_view(), entry.1.deep_view()));
                        session.route.same(&entry.0) && session.spec.same(&entry.1)
                    },
                    None => {
                        assert(!want_views(table@).dom().contains(k));
                        false
                    },
                };
                assert(keep == fits(want, k, before[k]));
                if !keep {
                    told = session.stop;
                    session.stop = false;
                }
            }
            assert(told == stops_now(before, want, k));
            if told {
                stop.push(key.copy());
                assert(stop.deep_view() =~= so_far.push(k));
            }
            proof {
                let now = self.tracked_sessions();
                assert(now[k] == told_to_stop(before, want)[k]);
                assert(now.dom() =~= before.dom());
                assert forall|x: Seq<char>| #[trigger] before.dom().contains(x) implies now[x] == if u.contains(x) {
                    told_to_stop(before, want)[x]
                } else {
                    before[x]
                } by {
                    if x != k {
                        assert(now[x] == sessions_before[x]);
                    }
                }
                let s = stop.deep_view();
                assert(!so_far.contains(k));
                lemma_push_contains(so_far, k);
                assert forall|x: Seq<char>| #[trigger] s.contains(x) <==> stops_now(before, want, x) && u.contains(
                    x,
                ) by {
                    assert(s.contains(x) <==> so_far.contains(x) || (told && x == k));
                }
            }
            i += 1;
        }
        proof {
            let all = keys.deep_view();
            assert(all.take(keys@.len() as int) =~= all);
            let now = self.tracked_sessions();
            assert forall|k: Seq<char>| #[trigger] before.dom().contains(k) implies now[k] == told_to_stop(
                before,
                want,
            )[k] by {
                assert(all.to_set().contains(k));
            }
            assert(now =~= told_to_stop(before, want));
            assert forall|k: Seq<char>| #[trigger] stop.deep_view().contains(k) <==> stops_now(before, want, k) by {
                if stops_now(before, want, k) {
                    assert(all.to_set().contains(k));
                }
            }
        }
        stop
    }

    /// Notes that a session was started for `start`, and gives it its number.
    pub fn start(&mut self, start: &SessionStart) -> (r: u64)
        ensures
            r == wrapping_next(old(self).epoch),
            final(self).epoch == r,
            final(self).accumulators == old(self).accumulators,
            final(self).tracked_sessions() == old(self).tracked_sessions().insert(
                start.key@,
                (RunningSessionView {
                    route: start.deep_view().route,
                    spec: start.deep_view().spec,
                    stop: true,
                    epoch: r,
                }),
            ),
    {
        let ghost before = self.tracked_sessions();
        self.epoch = self.epoch.wrapping_add(1);
        let session = RunningSession {
            route: start.route.copy(),
            spec: start.spec.copy(),
            stop: true,
            epoch: self.epoch,
        };
        let ghost v = session.deep_view();
        self.sessions.insert(start.key.copy(), session);
        assert(self.tracked_sessions() =~= before.insert(start.key@, v));
        self.epoch
    }

    /// Settles the report that the session of `key` started under `epoch` has
    /// ended: if it is the tracked one, its device may get another one at the
    /// next tick.
    pub fn done(&mut self, key: &String, epoch: u64) -> (r: DoneAction)
        ensures
            final(self).epoch == old(self).epoch,
            final(self).accumulators == old(self).accumulators,
            r == if old(self).tracked_sessions().dom().contains(key@) && old(self).tracked_sessions()[key@].epoch
                == epoch {
                DoneAction::Remove { unexpected: old(self).tracked_sessions()[key@].stop }
            } else {
                DoneAction::Ignore
            },
            final(self).tracked_sessions() == if r is Remove {
                old(self).tracked_sessions().remove(key@)
            } else {
                old(self).tracked_sessions()
            },
    {
        let ghost before = self.tracked_sessions();
        let action = on_done(epoch, self.sessions.get(key));
        if let DoneAction::Remove { .. } = action {
            let _ = self.sessions.remove(key);
            assert(self.tracked_sessions() =~= before.remove(key@));
        }
        action
    }
}

/// The number after `epoch`, from the last one back to zero.
pub open spec fn wrapping_next(epoch: u64) -> int {
    if epoch == u64::MAX {
        0
    } else {
        epoch + 1
    }
}

/// The meaning of what is called for.
pub open spec fn want_views(
    table: Map<Seq<char>, (DeviceRoute, CaptureSpec)>,
) -> Map<Seq<char>, (DeviceRouteView, CaptureSpecView)> {
    Map::new(
        |k: Seq<char>| table.dom().contains(k),
        |k: Seq<char>| (table[k].0.deep_view(), table[k].1.deep_view()),
    )
}

fn want_table(plans: &Vec<DeviceCapturePlan>, pairing: bool) -> (r: Table<String, (DeviceRoute, CaptureSpec)>)
    ensures
        want_views(r@) == wanted_now(plans@, pairing),
{
    let mut table: Table<String, (DeviceRoute, CaptureSpec)> = Table::new();
    assert(want_views(table@) =~= wanted(plans@, 0));
    if pairing {
        return table;
    }
    let mut i: usize = 0;
    while i < plans.len()
        invariant
            i <= plans@.len(),
            want_views(table@) == wanted(plans@, i as int),
        decreases plans@.len() - i,
    {
        let plan: &DeviceCapturePlan = &plans[i];
        let ghost so_far = want_views(table@);
        let entry = (plan.route.copy(), spec_for(plan));
        let ghost v = (entry.0.deep_view(), entry.1.deep_view());
        table.insert(plan.config_key.copy(), entry);
        assert(want_views(table@) =~= so_far.insert(plan.config_key@, v));
        i += 1;
    }
    table
}

fn session_keys(sessions: &Table<String, RunningSession>) -> (r: Vec<String>)
    ensures
        r.deep_view().no_duplicates(),
        r.deep_view().to_set() == session_views(sessions@).dom(),
{
    let mut keys: Vec<String> = Vec::new();
    let n: usize = sessions.len();
    let mut i: usize = 0;
    assert(keys.deep_view() =~= sessions.order().take(0));
    while i < n
        invariant
            i <= n,
            n == sessions.order().len(),
            keys.deep_view() == sessions.order().take(i as int),
        decreases n - i,
    {
        let ghost so_far = keys.deep_view();
        keys.push(sessions.key_at(i).copy());
        assert(keys.deep_view() =~= so_far.push(sessions.order()[i as int]));
        assert(sessions.order().take(i + 1) =~= so_far.push(sessions.order()[i as int]));
        i += 1;
    }
    proof {
        use_type_invariant(sessions);
        sessions.lemma_order();
        assert(sessions.order().take(n as int) =~= sessions.order());
        assert(session_views(sessions@).dom() =~= sessions@.dom());
    }
    keys
}

/// A captured input.
#[derive(Clone, Copy, Debug, PartialEq, Eq, Structural)]
pub enum CapturedInput {
    Gesture(GestureDirection),
    ButtonPressed(ButtonId),
    /// The thumb wheel was turned: up if not negative.
    Scroll(i16),
}

/// What a captured input leads to.
#[derive(Clone, Copy, Debug, PartialEq, Eq, Structural)]
pub enum Dispatch {
    Nothing,
    Run(Action),
    /// Scroll sideways by this many lines.
    Scroll(i32),
}

/// `plans[i]` is the first plan of `key`.
pub open spec fn is_plan_of(plans: Seq<DeviceCapturePlan>, key: Seq<char>, i: int) -> bool {
    &&& 0 <= i < plans.len()
    &&& plans[i].config_key@ == key
    &&& forall|j: int| 0 <= j < i ==> (#[trigger] plans[j]).config_key@ != key
}

/// `key` has a plan.
pub open spec fn has_plan(plans: Seq<DeviceCapturePlan>, key: Seq<char>) -> bool {
    exists|i: int| 0 <= i < plans.len() && (#[trigger] plans[i]).config_key@ == key
}

/// The action bound to an input, where there is one.
pub open spec fn bound<K>(bindings: Map<K, Action>, key: K) -> Dispatch {
    if bindings.dom().contains(key) {
        Dispatch::Run(bindings[key])
    } else {
        Dispatch::Nothing
    }
}

/// The action of the wheel: what is bound to the direction, or the default.
pub open spec fn wheel_action(plan: DeviceCapturePlan, up: bool, defaults: (Action, Action)) -> Action {
    let button = if up {
        ButtonId::ThumbwheelScrollUp
    } else {
        ButtonId::ThumbwheelScrollDown
    };
    if plan.bindings@.dom().contains(button) {
        plan.bindings@[button]
    } else if up {
        defaults.0
    } else {
        defaults.1
    }
}

/// What turning one direction of the wheel does.
pub open spec fn wheel_step(
    before: WheelDirection,
    after: WheelDirection,
    action: Action,
    magnitude: int,
    sensitivity: i32,
    now: u64,
    r: Dispatch,
) -> bool {
    &&& action is NoAction ==> r == Dispatch::Nothing && after == before
    &&& scrolls(action) ==> match r {
        Dispatch::Scroll(lines) => scroll_step(
            before,
            after,
            action,
            magnitude as i32,
            sensitivity,
            WheelOutput::Scroll(lines),
        ),
        Dispatch::Nothing => scroll_step(before, after, action, magnitude as i32, sensitivity, WheelOutput::Idle),
        Dispatch::Run(_) => false,
    }
    &&& is_custom(action) ==> match r {
        Dispatch::Run(ran) => ran == action && action_step(
            before,
            after,
            magnitude as i32,
            sensitivity,
            now,
            WheelOutput::FireAction,
        ),
        Dispatch::Nothing => action_step(before, after, magnitude as i32, sensitivity, now, WheelOutput::Idle),
        Dispatch::Scroll(_) => false,
    }
}

/// What is pending for the wheel of `key`.
pub open spec fn pending_of(accumulators: Map<Seq<char>, WheelAccumulators>, key: Seq<char>) -> WheelAccumulators {
    if accumulators.dom().contains(key) {
        accumulators[key]
    } else {
        unturned()
    }
}

/// How far the wheel was turned.
pub open spec fn turned(rotation: i16) -> int {
    if rotation >= 0 {
        rotation as int
    } else {
        -rotation
    }
}

impl Manager {
    /// What an input of the device `key` leads to, by the plan of that device;
    /// an action bound to the wheel asks for a sensitivity within the machine's
    /// range.
    /// `defaults` are the actions of an unbound wheel, turned up and down.
    pub fn dispatch(
        &mut self,
        key: &str,
        input: CapturedInput,
        plans: &Vec<DeviceCapturePlan>,
        defaults: (Action, Action),
        now: u64,
    ) -> (r: Dispatch)
        requires
            old(self).has_room(),
            input matches CapturedInput::Scroll(rotation) ==> forall|i: int| #[trigger]
                is_plan_of(plans@, key@, i) && is_custom(wheel_action(plans@[i], rotation >= 0, defaults)) ==> usable(
                    plans@[i].thumbwheel_sensitivity,
                ),
        ensures
            final(self).has_room(),
            final(self).sessions == old(self).sessions,
            final(self).epoch == old(self).epoch,
            !has_plan(plans@, key@) ==> r == Dispatch::Nothing && final(self).accumulators == old(self).accumulators,
            forall|i: int| #[trigger] is_plan_of(plans@, key@, i) ==> match input {
                CapturedInput::Gesture(direction) => {
                    &&& r == bound(plans@[i].gesture_bindings@, direction)
                    &&& final(self).accumulators == old(self).accumulators
                },
                CapturedInput::ButtonPressed(button) => {
                    &&& r == bound(plans@[i].bindings@, button)
                    &&& final(self).accumulators == old(self).accumulators
                },
                CapturedInput::Scroll(rotation) => {
                    let before = pending_of(old(self).accumulators@, key@);
                    let after = final(self).accumulators@[key@];
                    let action = wheel_action(plans@[i], rotation >= 0, defaults);
                    &&& final(self).accumulators@ == old(self).accumulators@.insert(key@, after)
                    &&& if rotation >= 0 {
                        after.down == before.down && wheel_step(
                            before.up,
                            after.up,
                            action,
                            turned(rotation),
                            plans@[i].thumbwheel_sensitivity,
                            now,
                            r,
                        )
                    } else {
                        after.up == before.up && wheel_step(
                            before.down,
                            after.down,
                            action,
                            turned(rotation),
                            plans@[i].thumbwheel_sensitivity,
                            now,
                            r,
                        )
                    }
                },
            },
    {
        let at: usize = match find_plan(plans, key) {
            Some(i) => i,
            None => {
                return Dispatch::Nothing;
            },
        };
        let plan: &DeviceCapturePlan = &plans[at];
        proof {
            assert forall|i: int| #[trigger] is_plan_of(plans@, key@, i) implies i == at by {
                if i < at {
                    assert(plans@[i].config_key@ != key@);
                }
                if at < i {
                    assert(plans@[at as int].config_key@ != key@);
                }
            }
        }
        match input {
            CapturedInput::Gesture(direction) => match plan.gesture_bindings.get(&direction) {
                Some(action) => Dispatch::Run(*action),
                None => Dispatch::Nothing,
            },
            CapturedInput::ButtonPressed(button) => match plan.bindings.get(&button) {
                Some(action) => Dispatch::Run(*action),
                None => Dispatch::Nothing,
            },
            CapturedInput::Scroll(rotation) => {
                let up = rotation >= 0;
                let button = if up {
                    ButtonId::ThumbwheelScrollUp
                } else {
                    ButtonId::ThumbwheelScrollDown
                };
                let action: Action = match plan.bindings.get(&button) {
                    Some(action) => *action,
                    None => if up {
                        defaults.0
                    } else {
                        defaults.1
                    },
                };
                let magnitude: i32 = if up {
                    rotation as i32
                } else {
                    -(rotation as i32)
                };
                self.turn(key, up, action, magnitude, plan.thumbwheel_sensitivity, now)
            },
        }
    }

    fn turn(&mut self, key: &str, up: bool, action: Action, magnitude: i32, sensitivity: i32, now: u64) -> (r: Dispatch)
        requires
            old(self).has_room(),
            0 <= magnitude <= crate::wheel::MAX_MAGNITUDE,
            is_custom(action) ==> usable(sensitivity),
        ensures
            final(self).has_room(),
            final(self).sessions == old(self).sessions,
            final(self).epoch == old(self).epoch,
            final(self).accumulators@ == old(self).accumulators@.insert(key@, final(self).accumulators@[key@]),
            if up {
                &&& final(self).accumulators@[key@].down == pending_of(old(self).accumulators@, key@).down
                &&& wheel_step(
                    pending_of(old(self).accumulators@, key@).up,
                    final(self).accumulators@[key@].up,
                    action,
                    magnitude as int,
                    sensitivity,
                    now,
                    r,
                )
            } else {
                &&& final(self).accumulators@[key@].up == pending_of(old(self).accumulators@, key@).up
                &&& wheel_step(
                    pending_of(old(self).accumulators@, key@).down,
                    final(self).accumulators@[key@].down,
                    action,
                    magnitude as int,
                    sensitivity,
                    now,
                    r,
                )
            },
    {
        let key: String = key.to_owned();
        let ghost before = pending_of(self.accumulators@, key@);
        let mut wheels: WheelAccumulators = match self.accumulators.remove(&key) {
            Some(wheels) => wheels,
            None => WheelAccumulators::new(),
        };
        assert(wheels == before);
        assert(before.has_room());
        let out = if up {
            advance(&mut wheels.up, &action, magnitude, sensitivity, now)
        } else {
            advance(&mut wheels.down, &action, magnitude, sensitivity, now)
        };
        proof {
            if is_custom(action) {
                if up {
                    law_room_is_kept(before.up, wheels.up, magnitude, sensitivity, now, out);
                } else {
                    law_room_is_kept(before.down, wheels.down, magnitude, sensitivity, now, out);
                }
            }
            assert(wheels.has_room());
        }
        self.accumulators.insert(key, wheels);
        proof {
            let now = self.accumulators@;
            assert(now =~= old(self).accumulators@.insert(key@, wheels));
            assert forall|k: Seq<char>| #[trigger] now.dom().contains(k) implies now[k].has_room() by {
                if k != key@ {
                    assert(old(self).accumulators@.dom().contains(k));
                }
            }
        }
        match out {
            WheelOutput::Idle => Dispatch::Nothing,
            WheelOutput::Scroll(lines) => Dispatch::Scroll(lines),
            WheelOutput::FireAction => Dispatch::Run(action),
        }
    }
}

fn find_plan(plans: &Vec<DeviceCapturePlan>, key: &str) -> (r: Option<usize>)
    ensures
        match r {
            Some(i) => is_plan_of(plans@, key@, i as int) && has_plan(plans@, key@),
            None => !has_plan(plans@, key@),
        },
{
    let mut i: usize = 0;
    while i < plans.len()
        invariant
            i <= plans@.len(),
            forall|j: int| 0 <= j < i ==> (#[trigger] plans@[j]).config_key@ != key@,
        decreases plans@.len() - i,
    {
        if text_eq(plans[i].config_key.as_str(), key) {
            assert(plans@[i as int].config_key@ == key@);
            return Some(i);
        }
        i += 1;
    }
    None
}

/// A device whose session was told to stop gets no other one before that
/// session has ended, whatever is called for meanwhile.
pub proof fn law_no_start_while_stopping(
    sessions: Map<Seq<char>, RunningSessionView>,
    want: Map<Seq<char>, (DeviceRouteView, CaptureSpecView)>,
    later: Map<Seq<char>, (DeviceRouteView, CaptureSpecView)>,
    key: Seq<char>,
)
    requires
        stops_now(sessions, want, key),
    ensures
        !starts_now(sessions, want, key),
        !starts_now(told_to_stop(sessions, want), later, key),
{
}

/// A session is told to stop once: the next look at the plans does not tell it
/// again, whatever is called for then.
pub proof fn law_told_to_stop_once(
    sessions: Map<Seq<char>, RunningSessionView>,
    want: Map<Seq<char>, (DeviceRouteView, CaptureSpecView)>,
    later: Map<Seq<char>, (DeviceRouteView, CaptureSpecView)>,
    key: Seq<char>,
)
    requires
        stops_now(sessions, want, key),
    ensures
        !stops_now(told_to_stop(sessions, want), later, key),
        told_to_stop(told_to_stop(sessions, want), later)[key] == told_to_stop(sessions, want)[key],
{
}

/// As long as the plans stay the same, a session that fits them is left alone.
pub proof fn law_fitting_sessions_are_left_alone(
    sessions: Map<Seq<char>, RunningSessionView>,
    want: Map<Seq<char>, (DeviceRouteView, CaptureSpecView)>,
)
    requires
        forall|k: Seq<char>| #[trigger] sessions.dom().contains(k) ==> fits(want, k, sessions[k]),
    ensures
        told_to_stop(sessions, want) == sessions,
        forall|k: Seq<char>| !#[trigger] stops_now(sessions, want, k),
{
    assert(told_to_stop(sessions, want) =~= sessions);
}

/// While pairing wants the receiver, every session is told to stop and none is
/// started.
pub proof fn law_pairing_gets_the_receiver(
    sessions: Map<Seq<char>, RunningSessionView>,
    plans: Seq<DeviceCapturePlan>,
    key: Seq<char>,
)
    ensures
        !starts_now(sessions, wanted_now(plans, true), key),
        sessions.dom().contains(key) ==> !told_to_stop(sessions, wanted_now(plans, true))[key].stop,
{
}

/// Every device with a plan is called for unless pairing wants the receiver.
pub proof fn law_every_plan_is_wanted(plans: Seq<DeviceCapturePlan>, i: int)
    requires
        0 <= i < plans.len(),
    ensures
        wanted_now(plans, false).dom().contains(plans[i].config_key@),
{
    lemma_wanted_contains(plans, i, plans.len() as int);
}

proof fn lemma_wanted_contains(plans: Seq<DeviceCapturePlan>, i: int, n: int)
    requires
        0 <= i < n <= plans.len(),
    ensures
        wanted(plans, n).dom().contains(plans[i].config_key@),
    decreases n,
{
    if i < n - 1 {
        lemma_wanted_contains(plans, i, n - 1);
    }
}

/// Turning the wheel leads to what is bound to the direction in which it was
/// turned, and to the default of that direction only where nothing is bound. An
/// action that does nothing never leads to anything, one that scrolls only
/// scrolls, to its own side, and any other is run itself, as soon as the wheel
/// was turned far enough and the action has not fired a moment ago.
pub proof fn law_binding_of_the_direction_is_taken(
    plan: DeviceCapturePlan,
    rotation: i16,
    defaults: (Action, Action),
    before: WheelDirection,
    after: WheelDirection,
    now: u64,
    r: Dispatch,
)
    requires
        wheel_step(
            before,
            after,
            wheel_action(plan, rotation >= 0, defaults),
            turned(rotation),
            plan.thumbwheel_sensitivity,
            now,
            r,
        ),
    ensures
        ({
            let bindings = plan.bindings@;
            let way = if rotation >= 0 {
                (ButtonId::ThumbwheelScrollUp, defaults.0)
            } else {
                (ButtonId::ThumbwheelScrollDown, defaults.1)
            };
            let action = if bindings.dom().contains(way.0) {
                bindings[way.0]
            } else {
                way.1
            };
            let far = if rotation >= 0 {
                rotation as int
            } else {
                -rotation
            };
            let paused = before.last_event is Some && now - before.last_event->0 > 300_000_000;
            let early = before.last_fired is Some && now - before.last_fired->0 < 200_000_000;
            let counted = far + if paused {
                0
            } else {
                before.action as int
            };
            match action {
                Action::NoAction => r == Dispatch::Nothing && after == before,
                Action::HorizontalScrollRight => match r {
                    Dispatch::Scroll(lines) => lines >= 1 && before.pending(far as i32, plan.thumbwheel_sensitivity)
                        >= crate::single::ONE,
                    Dispatch::Nothing => before.pending(far as i32, plan.thumbwheel_sensitivity) < crate::single::ONE,
                    Dispatch::Run(_) => false,
                },
                Action::HorizontalScrollLeft => match r {
                    Dispatch::Scroll(lines) => lines <= -1 && before.pending(far as i32, plan.thumbwheel_sensitivity)
                        >= crate::single::ONE,
                    Dispatch::Nothing => before.pending(far as i32, plan.thumbwheel_sensitivity) < crate::single::ONE,
                    Dispatch::Run(_) => false,
                },
                custom => if !early && counted >= 1 && counted + plan.thumbwheel_sensitivity >= 28 {
                    r == Dispatch::Run(custom) && after.action == 0 && after.last_fired == Some(now)
                } else {
                    r == Dispatch::Nothing && after.last_fired == before.last_fired
                },
            }
        }),
{
    let pending = before.pending(turned(rotation) as i32, plan.thumbwheel_sensitivity);
    vstd::arithmetic::div_mod::lemma_fundamental_div_mod(pending, crate::single::ONE as int);
}

/// An input runs the action that is bound to it, whichever that is, and nothing
/// happens exactly where none is bound.
pub proof fn law_bound_input_runs_its_action<K>(bindings: Map<K, Action>, key: K, action: Action)
    ensures
        bound(bindings, key) == Dispatch::Run(action) <==> bindings.dom().contains(key) && bindings[key] == action,
        bound(bindings, key) == Dispatch::Nothing <==> !bindings.dom().contains(key),
{
}

/// The session of a device is called for over the route of its last plan. It
/// takes over the thumb wheel exactly if the sensitivity or a binding of it is
/// not the default, follows the gesture button exactly if a gesture is bound, and
/// takes over the buttons of the plan.
pub proof fn law_last_plan_of_a_device_counts(plans: Seq<DeviceCapturePlan>, i: int)
    requires
        0 <= i < plans.len(),
        forall|j: int| i < j < plans.len() ==> (#[trigger] plans[j]).config_key@ != plans[i].config_key@,
    ensures
        ({
            let (route, spec) = wanted_now(plans, false)[plans[i].config_key@];
            &&& route == plans[i].route.deep_view()
            &&& spec.capture_thumbwheel <==> plans[i].thumbwheel_sensitivity != 14
                || plans[i].thumbwheel_bindings_nondefault
            &&& spec.divert_gesture_button <==> plans[i].gesture_bindings@.len() > 0
            &&& spec.divert_buttons == plans[i].divert_buttons@
        }),
{
    lemma_last_plan(plans, i, plans.len() as int);
    assert(plans[i].divert_buttons.deep_view() =~= plans[i].divert_buttons@);
}

proof fn lemma_last_plan(plans: Seq<DeviceCapturePlan>, i: int, n: int)
    requires
        0 <= i < n <= plans.len(),
        forall|j: int| i < j < n ==> (#[trigger] plans[j]).config_key@ != plans[i].config_key@,
    ensures
        wanted(plans, n)[plans[i].config_key@] == (plans[i].route.deep_view(), wanted_spec(&plans[i])),
    decreases n,
{
    if i < n - 1 {
        assert(plans[n - 1].config_key@ != plans[i].config_key@);
        lemma_last_plan(plans, i, n - 1);
    }
}

/// A session is called for exactly for the devices that have a plan, and for none
/// while pairing wants the receiver.
pub proof fn law_only_planned_devices_are_wanted(plans: Seq<DeviceCapturePlan>, pairing: bool, key: Seq<char>)
    ensures
        wanted_now(plans, pairing).dom().contains(key) <==> !pairing && exists|i: int|
            0 <= i < plans.len() && (#[trigger] plans[i]).config_key@ == key,
{
    if exists|i: int| 0 <= i < plans.len() && (#[trigger] plans[i]).config_key@ == key {
        let i = choose|i: int| 0 <= i < plans.len() && (#[trigger] plans[i]).config_key@ == key;
        law_every_plan_is_wanted(plans, i);
    }
    if !pairing && wanted_now(plans, pairing).dom().contains(key) {
        lemma_wanted_only(plans, plans.len() as int, key);
    }
}

proof fn lemma_wanted_only(plans: Seq<DeviceCapturePlan>, n: int, key: Seq<char>)
    requires
        0 <= n <= plans.len(),
        wanted(plans, n).dom().contains(key),
    ensures
        exists|i: int| 0 <= i < n && (#[trigger] plans[i]).config_key@ == key,
    decreases n,
{
    if n > 0 {
        if plans[n - 1].config_key@ != key {
            lemma_wanted_only(plans, n - 1, key);
        }
    }
}

/// A session is told to stop exactly if it was not told before and its device is
/// not called for, or over another route, or to take over something else. It
/// keeps its route, what it takes over and its number, and stays tracked.
pub proof fn law_session_is_stopped_for_any_difference(
    sessions: Map<Seq<char>, RunningSessionView>,
    want: Map<Seq<char>, (DeviceRouteView, CaptureSpecView)>,
    stop: Seq<Seq<char>>,
    key: Seq<char>,
)
    requires
        lists_stops(sessions, want, stop),
    ensures
        ({
            let (was, after) = (sessions[key], told_to_stop(sessions, want));
            let other = !want.dom().contains(key) || want[key].0 != was.route || want[key].1 != was.spec;
            &&& stop.contains(key) <==> sessions.dom().contains(key) && was.stop && other
            &&& stop.no_duplicates()
            &&& after.dom() == sessions.dom()
            &&& sessions.dom().contains(key) ==> {
                &&& after[key].stop <==> was.stop && !other
                &&& after[key].route == was.route
                &&& after[key].spec == was.spec
                &&& after[key].epoch == was.epoch
            }
        }),
{
    assert(stop.contains(key) <==> stops_now(sessions, want, key));
    assert(told_to_stop(sessions, want).dom() =~= sessions.dom());
}

/// A session is started exactly for the devices that are called for and have
/// none, over the route and for what is called for, and once.
pub proof fn law_session_is_started_where_none_is(
    sessions: Map<Seq<char>, RunningSessionView>,
    want: Map<Seq<char>, (DeviceRouteView, CaptureSpecView)>,
    start: Seq<SessionStartView>,
    key: Seq<char>,
)
    requires
        lists_starts(sessions, want, start),
    ensures
        (exists|i: int| 0 <= i < start.len() && (#[trigger] start[i]).key == key) <==> want.dom().contains(key)
            && !sessions.dom().contains(key),
        forall|i: int|
            0 <= i < start.len() ==> want[(#[trigger] start[i]).key].0 == start[i].route && want[start[i].key].1
                == start[i].spec,
        forall|i: int, j: int| 0 <= i < j < start.len() ==> (#[trigger] start[i]).key != (#[trigger] start[j]).key,
{
    if want.dom().contains(key) && !sessions.dom().contains(key) {
        assert(starts_now(sessions, want, key));
        assert(has_start(start, key));
    }
}

/// The number of a session is one more than that of the session before it.
pub proof fn law_numbers_go_up(epoch: u64)
    ensures
        epoch < u64::MAX ==> wrapping_next(epoch) == epoch + 1,
        wrapping_next(u64::MAX) == 0,
{
}

/// What is pending for a wheel is what was left there, and nothing for one that
/// was not turned yet.
pub proof fn law_pending_is_what_was_left(
    accumulators: Map<Seq<char>, WheelAccumulators>,
    key: Seq<char>,
    wheels: WheelAccumulators,
)
    ensures
        pending_of(accumulators.insert(key, wheels), key) == wheels,
        !accumulators.dom().contains(key) ==> ({
            let none = pending_of(accumulators, key);
            &&& none.up == none.down
            &&& none.up.scroll == 0 && none.up.action == 0
            &&& none.up.last_event is None && none.up.last_fired is None
        }),
{
}

/// An input is looked up in the first plan of its device, and a device has a plan
/// exactly if one carries its key.
pub proof fn law_first_plan_of_a_device_is_used(plans: Seq<DeviceCapturePlan>, key: Seq<char>, i: int)
    requires
        0 <= i < plans.len(),
        plans[i].config_key@ == key,
    ensures
        has_plan(plans, key),
        exists|k: int| #[trigger] is_plan_of(plans, key, k) && k <= i && plans[k].config_key@ == key,
        forall|k: int, j: int| #[trigger] is_plan_of(plans, key, k) && #[trigger] is_plan_of(plans, key, j) ==> k == j,
    decreases i,
{
    if forall|j: int| 0 <= j < i ==> (#[trigger] plans[j]).config_key@ != key {
        assert(is_plan_of(plans, key, i));
    } else {
        let j = choose|j: int| 0 <= j < i && (#[trigger] plans[j]).config_key@ == key;
        law_first_plan_of_a_device_is_used(plans, key, j);
    }
}

/// A device whose key no plan carries has no plan.
pub proof fn law_unplanned_device_has_no_plan(plans: Seq<DeviceCapturePlan>, key: Seq<char>, i: int)
    requires
        forall|j: int| 0 <= j < plans.len() ==> (#[trigger] plans[j]).config_key@ != key,
    ensures
        !has_plan(plans, key),
        !is_plan_of(plans, key, i),
{
}

/// The meaning of a session holds what the session holds, and that of all
/// sessions holds each under its key.
pub proof fn law_session_means_what_it_holds(
    session: RunningSession,
    start: SessionStart,
    sessions: Map<Seq<char>, RunningSession>,
    key: Seq<char>,
)
    ensures
        session.deep_view().route == session.route.deep_view(),
        session.deep_view().stop == session.stop,
        session.deep_view().epoch == session.epoch,
        session.deep_view().spec.capture_thumbwheel == session.spec.capture_thumbwheel,
        session.deep_view().spec.divert_gesture_button == session.spec.divert_gesture_button,
        session.deep_view().spec.divert_buttons == session.spec.divert_buttons@,
        start.deep_view().key == start.key@,
        start.deep_view().route == start.route.deep_view(),
        start.deep_view().spec == start.spec.deep_view(),
        session_views(sessions).dom() == sessions.dom(),
        sessions.dom().contains(key) ==> session_views(sessions)[key] == sessions[key].deep_view(),
{
    assert(session.spec.divert_buttons.deep_view() =~= session.spec.divert_buttons@);
    assert(session_views(sessions).dom() =~= sessions.dom());
}

} // verus!
