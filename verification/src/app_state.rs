//! The state of the application: the devices it shows, their settings, and what
//! follows from a change.

use vstd::prelude::*;
use crate::buttons::{Action, ButtonId, GestureDirection};
use crate::config::{
    AppSettings, Appearance, AssetSource, Config, DeviceSettingsView, Lighting, ScrollResolution, SmartShift,
    MAX_THUMBWHEEL_SENSITIVITY, MIN_THUMBWHEEL_SENSITIVITY,
};
use crate::device::{DeviceInventory, DeviceModelInfo, DeviceModelInfoView, DeviceRoute, DeviceRouteView};
use crate::dpi::{snapped, DpiCapabilities, DpiInfo};
use crate::load::{
    dpi_error_is_permanent, smartshift_error_is_permanent, LazyDeviceData, Load, LoadView, WriteError, WriteErrorKind,
};
use crate::orchestrator::{
    DeviceChange, DeviceWrite, DeviceWriteView, HookProjection, HookProjectionView, InventoryHealth,
};
use crate::records::{
    contains_record, has_news, has_record, identities_remembered, keys_of, merge_snapshot, misses_shown,
    persist_identities, pick_initial_device, shown_place, shows, DeviceRecord, DeviceRecordView,
};
use crate::seqs::lemma_push_contains;
use crate::table::Table;
use crate::value::{list_contains, Value};

verus! {

/// The DPI shown until that of the device is known.
pub const DEFAULT_DPI: u32 = 1600;

/// So many events of the live monitor are kept.
pub const MONITOR_EVENTS_MAX: usize = 200;

/// What the agent says of itself.
#[derive(Clone, Copy, Debug, PartialEq, Eq, Structural)]
pub struct AgentStatus {
    /// The agent may watch the input of the system.
    pub accessibility_granted: bool,
    pub launch_at_login: bool,
    pub inventory: InventoryHealth,
}

/// How the agent is reached: its latest status, or why there is none.
#[derive(Clone, Copy, Debug, PartialEq, Eq, Structural)]
pub enum AgentLink {
    /// The agent has not answered yet.
    Connecting,
    /// The agent has not answered for long.
    Unreachable,
    /// The agent is newer than this process.
    OutdatedGui,
    /// The latest status.
    Ready(AgentStatus),
}

/// What is to be done with changed settings.
#[derive(Clone, Copy, Debug, PartialEq, Eq, Structural)]
pub enum Persist {
    Nothing,
    /// Save them.
    Save,
    /// Save them, and if that worked have the agent load them.
    SaveThenReload,
}

impl DeepView for Persist {
    type V = Persist;

    open spec fn deep_view(&self) -> Persist {
        *self
    }
}

impl Value for Persist {
    fn same(&self, other: &Self) -> (r: bool) {
        *self == *other
    }

    fn copy(&self) -> (r: Self) {
        *self
    }
}

/// A change of the bindings of a device.
#[derive(Clone, Copy, Debug, PartialEq, Eq, Structural)]
pub enum BindingChange {
    Single(ButtonId, Action),
    /// Another button owns the gestures, or none.
    Owner(Option<ButtonId>),
    /// A direction of the button that owns the gestures.
    Direction(ButtonId, GestureDirection, Action),
}

impl DeepView for BindingChange {
    type V = BindingChange;

    open spec fn deep_view(&self) -> BindingChange {
        *self
    }
}

impl Value for BindingChange {
    fn same(&self, other: &Self) -> (r: bool) {
        *self == *other
    }

    fn copy(&self) -> (r: Self) {
        *self
    }
}

/// A change of the bindings under a key.
#[derive(Debug, PartialEq, Eq)]
pub struct BindingEdit {
    pub key: String,
    pub change: BindingChange,
}

/// The meaning of a [`BindingEdit`].
pub struct BindingEditView {
    pub key: Seq<char>,
    pub change: BindingChange,
}

impl DeepView for BindingEdit {
    type V = BindingEditView;

    open spec fn deep_view(&self) -> BindingEditView {
        BindingEditView {
            key: self.key.deep_view(),
            change: self.change.deep_view(),
        }
    }
}

impl Value for BindingEdit {
    fn same(&self, other: &Self) -> (r: bool) {
        self.key.same(&other.key)
            && self.change.same(&other.change)
    }

    fn copy(&self) -> (r: Self) {
        BindingEdit {
            key: self.key.copy(),
            change: self.change.copy(),
        }
    }
}

/// What a change calls for: a write to a device at once, a change of bindings, then saving; and whether the bindings shown are to be built anew.
#[derive(Debug, PartialEq, Eq)]
pub struct Effects {
    pub write: Option<DeviceWrite>,
    pub edit: Option<BindingEdit>,
    pub persist: Persist,
    pub project: bool,
}

/// The meaning of a [`Effects`].
pub struct EffectsView {
    pub write: Option<DeviceWriteView>,
    pub edit: Option<BindingEditView>,
    pub persist: Persist,
    pub project: bool,
}

impl DeepView for Effects {
    type V = EffectsView;

    open spec fn deep_view(&self) -> EffectsView {
        EffectsView {
            write: self.write.deep_view(),
            edit: self.edit.deep_view(),
            persist: self.persist.deep_view(),
            project: self.project.deep_view(),
        }
    }
}

impl Value for Effects {
    fn same(&self, other: &Self) -> (r: bool) {
        self.write.same(&other.write)
            && self.edit.same(&other.edit)
            && self.persist.same(&other.persist)
            && self.project.same(&other.project)
    }

    fn copy(&self) -> (r: Self) {
        Effects {
            write: self.write.copy(),
            edit: self.edit.copy(),
            persist: self.persist.copy(),
            project: self.project.copy(),
        }
    }
}

/// No effects.
pub open spec fn no_effects() -> EffectsView {
    EffectsView { write: None, edit: None, persist: Persist::Nothing, project: false }
}

/// Only saving and loading.
pub open spec fn save_then_reload() -> EffectsView {
    EffectsView { persist: Persist::SaveThenReload, ..no_effects() }
}

impl Effects {
    pub fn none() -> (r: Self)
        ensures
            r.deep_view() == no_effects(),
    {
        Effects { write: None, edit: None, persist: Persist::Nothing, project: false }
    }

    fn reload() -> (r: Self)
        ensures
            r.deep_view() == save_then_reload(),
    {
        Effects { write: None, edit: None, persist: Persist::SaveThenReload, project: false }
    }
}

/// Whether the agent loads the settings, given whether they were saved. Settings
/// that were not saved must not be loaded: the agent would take older ones for
/// them.
pub fn reload_after_save(persist: Persist, saved: bool) -> (r: bool)
    ensures
        r == (persist == Persist::SaveThenReload && saved),
{
    persist == Persist::SaveThenReload && saved
}

/// Where the gestures that are shown come from.
#[derive(Clone, Copy, Debug, PartialEq, Eq, Structural)]
pub enum GestureSource {
    /// There are none.
    Nothing,
    /// From the gesture button, with the defaults for what is not set.
    Seeded,
    /// From what is stored of this button.
    Stored(ButtonId),
}

/// The state of the application.
pub struct AppState {
    /// The place of the device that is shown.
    pub current_device: usize,
    /// The application that is in front.
    pub current_app_bundle: Option<String>,
    /// The button that was clicked last.
    pub active_button: Option<ButtonId>,
    pub agent_link: AgentLink,
    /// The bindings of the device that is shown.
    pub button_bindings: Table<ButtonId, Action>,
    pub gesture_bindings: Table<GestureDirection, Action>,
    pub dpi: u32,
    pub dpi_data: LazyDeviceData<DpiInfo>,
    /// How many snapshots in a row have missed a device.
    pub inventory_misses: Table<String, u8>,
    pub smartshift_data: LazyDeviceData<SmartShift>,
    /// The devices whose SmartShift was written and has to be read back.
    pub smartshift_pending_confirm: Vec<String>,
    pub device_list: Vec<DeviceRecord>,
    pub config: Config,
    /// The last completed snapshot.
    pub last_inventory: Vec<DeviceInventory>,
    /// The latest events of the live monitor, the oldest first.
    pub monitor_events: Vec<MonitorEvent>,
    /// The event taps of the system, as they were last found.
    pub event_taps: Vec<EventTapInfo>,
}

/// An event of the live monitor, as it is shown.
#[derive(Debug, PartialEq, Eq)]
pub struct MonitorEvent {
    pub text: String,
}

/// An event tap of the system, as it is shown.
#[derive(Debug, PartialEq, Eq)]
pub struct EventTapInfo {
    pub text: String,
}

/// The state with other settings of the application.
pub open spec fn with_settings(state: AppState, settings: AppSettings) -> AppState {
    AppState { config: Config { app_settings: settings, ..state.config }, ..state }
}

/// A sensitivity within the range.
pub open spec fn clamped_sensitivity(sensitivity: i32) -> i32 {
    if sensitivity < MIN_THUMBWHEEL_SENSITIVITY {
        MIN_THUMBWHEEL_SENSITIVITY
    } else if sensitivity > MAX_THUMBWHEEL_SENSITIVITY {
        MAX_THUMBWHEEL_SENSITIVITY
    } else {
        sensitivity
    }
}

fn clamp_sensitivity(sensitivity: i32) -> (r: i32)
    ensures
        r == clamped_sensitivity(sensitivity),
{
    if sensitivity < MIN_THUMBWHEEL_SENSITIVITY {
        MIN_THUMBWHEEL_SENSITIVITY
    } else if sensitivity > MAX_THUMBWHEEL_SENSITIVITY {
        MAX_THUMBWHEEL_SENSITIVITY
    } else {
        sensitivity
    }
}

/// A write to a device that can be reached.
pub open spec fn write_to(route: Option<DeviceRouteView>, change: DeviceChange) -> Option<DeviceWriteView> {
    match route {
        Some(route) => Some(DeviceWriteView { route, change }),
        None => None,
    }
}

fn device_write(route: &Option<DeviceRoute>, change: DeviceChange) -> (r: Option<DeviceWrite>)
    ensures
        r.deep_view() == write_to(route.deep_view(), change),
{
    match route {
        Some(route) => Some(DeviceWrite { route: route.copy(), change }),
        None => None,
    }
}

/// A device keeps its key but is reached in another way than before.
pub open spec fn is_rerouted(previous: Seq<DeviceRecordView>, list: Seq<DeviceRecordView>, key: Seq<char>) -> bool {
    exists|i: int, j: int|
        #![trigger list[i], previous[j]]
        0 <= i < list.len() && 0 <= j < previous.len() && list[i].config_key == key && previous[j].config_key == key
            && previous[j].route != list[i].route
}

/// Nothing that is shown differs.
pub open spec fn looks_the_same(a: Seq<DeviceRecordView>, b: Seq<DeviceRecordView>) -> bool {
    &&& a.len() == b.len()
    &&& forall|i: int| #![trigger a[i]]
        0 <= i < a.len() ==> a[i].config_key == b[i].config_key && a[i].route == b[i].route && a[i].online
            == b[i].online && a[i].capabilities == b[i].capabilities
}

/// What is kept of the data of devices: that of devices that are still there and
/// reached as before.
pub open spec fn kept_data<V>(
    data: Map<Seq<char>, V>,
    previous: Seq<DeviceRecordView>,
    list: Seq<DeviceRecordView>,
) -> Map<Seq<char>, V> {
    Map::new(
        |k: Seq<char>| data.dom().contains(k) && has_record(list, k) && !is_rerouted(previous, list, k),
        |k: Seq<char>| data[k],
    )
}

/// The SmartShift of the device that is shown was set: it is written to the
/// device, stored, shown at once, and marked for being read back.
pub open spec fn smartshift_committed(
    before: AppState,
    after: AppState,
    smartshift: SmartShift,
    effects: EffectsView,
) -> bool {
    match before.current() {
        Some(record) => {
            let key = record.config_key;
            &&& effects == (EffectsView {
                write: write_to(record.route, DeviceChange::SmartShift(smartshift)),
                ..save_then_reload()
            })
            &&& after == (AppState {
                config: after.config,
                smartshift_data: after.smartshift_data,
                smartshift_pending_confirm: after.smartshift_pending_confirm,
                ..before
            })
            &&& after.config.device_changed(
                &before.config,
                key,
                (DeviceSettingsView { smartshift: Some(smartshift), ..before.config.device(key) }),
            )
            &&& after.smartshift_data.loads() == before.smartshift_data.loads().insert(
                key,
                LoadView::Ready(smartshift),
            )
            &&& after.smartshift_data.attempts@ == before.smartshift_data.attempts@.remove(key)
            &&& forall|k: Seq<char>| #[trigger]
                after.smartshift_pending_confirm.deep_view().contains(k) <==> k == key
                    || before.smartshift_pending_confirm.deep_view().contains(k)
        },
        None => effects == no_effects() && after == before,
    }
}

/// What had to be read back of the device that is shown was taken; it is owed no
/// more.
pub open spec fn confirm_taken(
    before: AppState,
    after: AppState,
    taken: Option<(Seq<char>, DeviceRouteView)>,
) -> bool {
    let pending = before.smartshift_pending_confirm.deep_view();
    &&& after == (AppState { smartshift_pending_confirm: after.smartshift_pending_confirm, ..before })
    &&& match before.current() {
        Some(record) => match record.route {
            Some(route) => {
                &&& forall|k: Seq<char>| #[trigger]
                    after.smartshift_pending_confirm.deep_view().contains(k) <==> k != record.config_key
                        && pending.contains(k)
                &&& taken == if pending.contains(record.config_key) {
                    Some((record.config_key, route))
                } else {
                    None
                }
            },
            None => taken is None && after == before,
        },
        None => taken is None && after == before,
    }
}

/// `route` is how the device `key` is reached.
pub open spec fn is_route_of(list: Seq<DeviceRecordView>, key: Seq<char>, route: DeviceRouteView) -> bool {
    exists|i: int|
        0 <= i < list.len() && (#[trigger] list[i]).config_key == key && list[i].route == Some(route)
}

proof fn lemma_routed_is_present(list: Seq<DeviceRecordView>, key: Seq<char>, route: DeviceRouteView)
    ensures
        is_route_of(list, key, route) ==> has_record(list, key),
{
    if is_route_of(list, key, route) {
        let i = choose|i: int|
            0 <= i < list.len() && (#[trigger] list[i]).config_key == key && list[i].route == Some(route);
        assert(list[i].config_key == key);
    }
}

fn matches_route(list: &Vec<DeviceRecord>, key: &String, route: &DeviceRoute) -> (r: bool)
    ensures
        r == is_route_of(list.deep_view(), key@, route.deep_view()),
{
    let mut i: usize = 0;
    while i < list.len()
        invariant
            i <= list@.len(),
            forall|j: int|
                0 <= j < i ==> !((#[trigger] list.deep_view()[j]).config_key == key@ && list.deep_view()[j].route
                    == Some(route.deep_view())),
        decreases list@.len() - i,
    {
        if list[i].config_key.same(key) {
            if let Some(own) = &list[i].route {
                if own.same(route) {
                    assert(list.deep_view()[i as int].config_key == key@);
                    return true;
                }
            }
        }
        i += 1;
    }
    false
}

fn same_look(a: &Vec<DeviceRecord>, b: &Vec<DeviceRecord>) -> (r: bool)
    ensures
        r == looks_the_same(a.deep_view(), b.deep_view()),
{
    if a.len() != b.len() {
        return false;
    }
    let ghost (av, bv) = (a.deep_view(), b.deep_view());
    let mut i: usize = 0;
    while i < a.len()
        invariant
            i <= a@.len(),
            a@.len() == b@.len(),
            av == a.deep_view(),
            bv == b.deep_view(),
            forall|k: int| #![trigger av[k]]
                0 <= k < i ==> av[k].config_key == bv[k].config_key && av[k].route == bv[k].route && av[k].online
                    == bv[k].online && av[k].capabilities == bv[k].capabilities,
        decreases a@.len() - i,
    {
        let (x, y) = (&a[i], &b[i]);
        assert(av[i as int] == x.deep_view() && bv[i as int] == y.deep_view());
        if !(x.config_key.same(&y.config_key) && x.route.same(&y.route) && x.online == y.online
            && x.capabilities.same(&y.capabilities)) {
            return false;
        }
        i += 1;
    }
    true
}

/// The keys of the devices that are reached in another way than before, among
/// the first `n` of `list`.
pub open spec fn rerouted_among(
    previous: Seq<DeviceRecordView>,
    list: Seq<DeviceRecordView>,
    n: int,
    key: Seq<char>,
) -> bool {
    exists|i: int, j: int|
        #![trigger list[i], previous[j]]
        0 <= i < n && 0 <= j < previous.len() && list[i].config_key == key && previous[j].config_key == key
            && previous[j].route != list[i].route
}

fn rerouted_keys(previous: &Vec<DeviceRecord>, list: &Vec<DeviceRecord>) -> (r: Vec<String>)
    ensures
        forall|k: Seq<char>| #[trigger] r.deep_view().contains(k) <==> is_rerouted(
            previous.deep_view(),
            list.deep_view(),
            k,
        ),
{
    let ghost (pv, lv) = (previous.deep_view(), list.deep_view());
    let mut keys: Vec<String> = Vec::new();
    let mut i: usize = 0;
    while i < list.len()
        invariant
            i <= list@.len(),
            pv == previous.deep_view(),
            lv == list.deep_view(),
            forall|k: Seq<char>| #[trigger] keys.deep_view().contains(k) <==> rerouted_among(pv, lv, i as int, k),
        decreases list@.len() - i,
    {
        let record: &DeviceRecord = &list[i];
        let ghost so_far = keys.deep_view();
        let ghost key = lv[i as int].config_key;
        let moved = moved_from(previous, record);
        if moved {
            keys.push(record.config_key.copy());
            assert(keys.deep_view() =~= so_far.push(key));
        }
        proof {
            let now = keys.deep_view();
            lemma_push_contains(so_far, key);
            assert(moved == exists|j: int|
                0 <= j < pv.len() && (#[trigger] pv[j]).config_key == key && pv[j].route != lv[i as int].route);
            assert forall|k: Seq<char>| #[trigger] now.contains(k) <==> rerouted_among(pv, lv, i + 1, k) by {
                assert(now.contains(k) <==> so_far.contains(k) || (moved && k == key));
                if so_far.contains(k) {
                    let (a, b) = choose|a: int, b: int|
                        #![trigger lv[a], pv[b]]
                        0 <= a < i && 0 <= b < pv.len() && lv[a].config_key == k && pv[b].config_key == k
                            && pv[b].route != lv[a].route;
                    assert(0 <= a < i + 1);
                }
                if moved && k == key {
                    let j = choose|j: int|
                        0 <= j < pv.len() && (#[trigger] pv[j]).config_key == key && pv[j].route != lv[i as int].route;
                    assert(lv[i as int].config_key == k);
                }
                if rerouted_among(pv, lv, i + 1, k) {
                    let (a, b) = choose|a: int, b: int|
                        #![trigger lv[a], pv[b]]
                        0 <= a < i + 1 && 0 <= b < pv.len() && lv[a].config_key == k && pv[b].config_key == k
                            && pv[b].route != lv[a].route;
                    if a < i {
                        assert(rerouted_among(pv, lv, i as int, k));
                    } else {
                        assert(pv[b].config_key == key);
                    }
                }
            }
        }
        i += 1;
    }
    proof {
        assert forall|k: Seq<char>| #[trigger] keys.deep_view().contains(k) <==> is_rerouted(pv, lv, k) by {
            assert(rerouted_among(pv, lv, lv.len() as int, k) == is_rerouted(pv, lv, k));
        }
    }
    keys
}

fn moved_from(previous: &Vec<DeviceRecord>, record: &DeviceRecord) -> (r: bool)
    ensures
        r == exists|j: int|
            0 <= j < previous@.len() && (#[trigger] previous.deep_view()[j]).config_key
                == record.deep_view().config_key && previous.deep_view()[j].route != record.deep_view().route,
{
    let mut j: usize = 0;
    while j < previous.len()
        invariant
            j <= previous@.len(),
            forall|k: int|
                0 <= k < j ==> !((#[trigger] previous.deep_view()[k]).config_key == record.deep_view().config_key
                    && previous.deep_view()[k].route != record.deep_view().route),
        decreases previous@.len() - j,
    {
        let old_record: &DeviceRecord = &previous[j];
        assert(previous.deep_view()[j as int] == old_record.deep_view());
        if old_record.config_key.same(&record.config_key) && !old_record.route.same(&record.route) {
            return true;
        }
        j += 1;
    }
    false
}

/// Forgets the data of the devices `keys`, and of those not in `present`.
fn forget_data<T: Value>(data: &mut LazyDeviceData<T>, keys: &Vec<String>, present: &Vec<String>)
    ensures
        forall|k: Seq<char>| #[trigger] final(data).loads().dom().contains(k) <==> old(data).loads().dom().contains(k)
            && present.deep_view().contains(k) && !keys.deep_view().contains(k),
        forall|k: Seq<char>| #[trigger] final(data).loads().dom().contains(k) ==> final(data).loads()[k] == old(
            data,
        ).loads()[k],
        forall|k: Seq<char>| #[trigger] final(data).attempts@.dom().contains(k) <==> old(
            data,
        ).attempts@.dom().contains(k) && present.deep_view().contains(k) && !keys.deep_view().contains(k),
        forall|k: Seq<char>| #[trigger] final(data).attempts@.dom().contains(k) ==> final(data).attempts@[k] == old(
            data,
        ).attempts@[k],
{
    let ghost (loads, attempts) = (data.loads(), data.attempts@);
    let ghost all = keys.deep_view();
    let mut i: usize = 0;
    while i < keys.len()
        invariant
            i <= keys@.len(),
            all == keys.deep_view(),
            forall|k: Seq<char>| #[trigger] data.loads().dom().contains(k) <==> loads.dom().contains(k) && !all.take(
                i as int,
            ).contains(k),
            forall|k: Seq<char>| #[trigger] data.loads().dom().contains(k) ==> data.loads()[k] == loads[k],
            forall|k: Seq<char>| #[trigger] data.attempts@.dom().contains(k) <==> attempts.dom().contains(k)
                && !all.take(i as int).contains(k),
            forall|k: Seq<char>| #[trigger] data.attempts@.dom().contains(k) ==> data.attempts@[k] == attempts[k],
        decreases keys@.len() - i,
    {
        let ghost (l0, a0) = (data.loads(), data.attempts@);
        let ghost (t, u) = (all.take(i as int), all.take(i + 1));
        data.remove(&keys[i]);
        proof {
            let gone = all[i as int];
            assert(u =~= t.push(gone));
            lemma_push_contains(t, gone);
            assert forall|k: Seq<char>| #[trigger] data.loads().dom().contains(k) <==> loads.dom().contains(k)
                && !u.contains(k) by {
                assert(data.loads().dom().contains(k) == (l0.dom().contains(k) && k != gone));
            }
            assert forall|k: Seq<char>| #[trigger] data.attempts@.dom().contains(k) <==> attempts.dom().contains(k)
                && !u.contains(k) by {
                assert(data.attempts@.dom().contains(k) == (a0.dom().contains(k) && k != gone));
            }
        }
        i += 1;
    }
    assert(all.take(keys@.len() as int) =~= all);
    let ghost (l1, a1) = (data.loads(), data.attempts@);
    data.retain_present(present);
    proof {
        let there = present.deep_view().to_set();
        assert forall|k: Seq<char>| #[trigger] data.loads().dom().contains(k) <==> loads.dom().contains(k)
            && present.deep_view().contains(k) && !all.contains(k) by {
            assert(there.contains(k) == present.deep_view().contains(k));
            assert(data.loads().dom().contains(k) == (l1.dom().contains(k) && there.contains(k)));
        }
        assert forall|k: Seq<char>| #[trigger] data.loads().dom().contains(k) implies data.loads()[k] == loads[k] by {
            assert(l1.dom().contains(k));
        }
        assert forall|k: Seq<char>| #[trigger] data.attempts@.dom().contains(k) <==> attempts.dom().contains(k)
            && present.deep_view().contains(k) && !all.contains(k) by {
            assert(there.contains(k) == present.deep_view().contains(k));
            assert(data.attempts@.dom().contains(k) == (a1.dom().contains(k) && there.contains(k)));
        }
        assert forall|k: Seq<char>| #[trigger] data.attempts@.dom().contains(k) implies data.attempts@[k]
            == attempts[k] by {
            assert(a1.dom().contains(k));
        }
    }
}

impl AppState {
    /// The device that is shown.
    pub open spec fn current(&self) -> Option<DeviceRecordView> {
        if self.current_device < self.device_list@.len() {
            Some(self.device_list.deep_view()[self.current_device as int])
        } else {
            None
        }
    }

    /// The key of the device that is shown.
    pub open spec fn selected(&self) -> Option<Seq<char>> {
        match self.current() {
            Some(record) => Some(record.config_key),
            None => None,
        }
    }

    /// The DPI to show: that of the device that is shown, once it is known.
    pub open spec fn known_dpi(&self) -> int {
        match self.selected() {
            Some(key) => match self.dpi_data.load(key) {
                LoadView::Ready(info) => info.0 as int,
                _ => DEFAULT_DPI as int,
            },
            None => DEFAULT_DPI as int,
        }
    }

    /// Only the settings differ from `before`, and of those only what is stored
    /// under `key`, which is `now`.
    pub open spec fn stored(&self, before: &AppState, key: Seq<char>, now: DeviceSettingsView) -> bool {
        &&& *self == (AppState { config: self.config, ..*before })
        &&& self.config.device_changed(&before.config, key, now)
    }

    /// The application with these settings and devices. What the devices are is
    /// remembered; the device that was shown last is shown, if it is there.
    pub fn with_runtime(config: Config, device_list: Vec<DeviceRecord>) -> (r: (Self, Effects))
        ensures
            r.0.device_list == device_list,
            identities_remembered(&config, &r.0.config, device_list.deep_view(), device_list@.len() as int),
            r.0.current_device == shown_place(device_list.deep_view(), config.selected_device.deep_view()),
            r.0.current_app_bundle is None,
            r.0.active_button is None,
            r.0.agent_link == AgentLink::Connecting,
            r.0.button_bindings@ == Map::<ButtonId, Action>::empty(),
            r.0.gesture_bindings@ == Map::<GestureDirection, Action>::empty(),
            r.0.dpi == DEFAULT_DPI,
            r.0.dpi_data.loads().dom() == Set::<Seq<char>>::empty(),
            r.0.dpi_data.attempts@ == Map::<Seq<char>, u8>::empty(),
            r.0.inventory_misses@ == Map::<Seq<char>, u8>::empty(),
            r.0.smartshift_data.loads().dom() == Set::<Seq<char>>::empty(),
            r.0.smartshift_data.attempts@ == Map::<Seq<char>, u8>::empty(),
            r.0.smartshift_pending_confirm@.len() == 0,
            r.0.last_inventory@.len() == 0,
            r.0.monitor_events@.len() == 0,
            r.0.event_taps@.len() == 0,
            r.1.deep_view() == (EffectsView {
                persist: if has_news(&config, device_list.deep_view()) {
                    Persist::Save
                } else {
                    Persist::Nothing
                },
                project: true,
                ..no_effects()
            }),
    {
        let mut config = config;
        let changed = persist_identities(&mut config, &device_list);
        let current_device = pick_initial_device(&device_list, &config.selected_device);
        let state = AppState {
            current_device,
            current_app_bundle: None,
            active_button: None,
            agent_link: AgentLink::Connecting,
            button_bindings: Table::new(),
            gesture_bindings: Table::new(),
            dpi: DEFAULT_DPI,
            dpi_data: LazyDeviceData::new(),
            inventory_misses: Table::new(),
            smartshift_data: LazyDeviceData::new(),
            smartshift_pending_confirm: Vec::new(),
            device_list,
            config,
            last_inventory: Vec::new(),
            monitor_events: Vec::new(),
            event_taps: Vec::new(),
        };
        let persist = if changed {
            Persist::Save
        } else {
            Persist::Nothing
        };
        (state, Effects { write: None, edit: None, persist, project: true })
    }

    /// Takes over the bindings to show.
    pub fn store_projection(
        &mut self,
        buttons: Table<ButtonId, Action>,
        gestures: Table<GestureDirection, Action>,
    )
        ensures
            *final(self) == (AppState { button_bindings: buttons, gesture_bindings: gestures, ..*old(self) }),
    {
        self.button_bindings = buttons;
        self.gesture_bindings = gestures;
    }

    /// Keeps a completed snapshot.
    pub fn store_inventory_snapshot(&mut self, inventory: Vec<DeviceInventory>)
        ensures
            *final(self) == (AppState { last_inventory: inventory, ..*old(self) }),
    {
        self.last_inventory = inventory;
    }

    /// The last completed snapshot.
    pub fn last_inventory(&self) -> (r: &Vec<DeviceInventory>)
        ensures
            *r == self.last_inventory,
    {
        &self.last_inventory
    }

    /// Appends events of the live monitor, and drops the oldest of too many.
    pub fn push_monitor_events(&mut self, events: Vec<MonitorEvent>)
        requires
            old(self).monitor_events@.len() + events@.len() <= usize::MAX,
        ensures
            *final(self) == (AppState { monitor_events: final(self).monitor_events, ..*old(self) }),
            final(self).monitor_events@ == latest(old(self).monitor_events@ + events@),
    {
        let ghost all = self.monitor_events@ + events@;
        let mut events = events;
        self.monitor_events.append(&mut events);
        if self.monitor_events.len() > MONITOR_EVENTS_MAX {
            let at: usize = self.monitor_events.len() - MONITOR_EVENTS_MAX;
            self.monitor_events = self.monitor_events.split_off(at);
        }
        assert(self.monitor_events@ =~= latest(all));
    }

    /// The latest events of the live monitor, the oldest first.
    pub fn monitor_events(&self) -> (r: &Vec<MonitorEvent>)
        ensures
            *r == self.monitor_events,
    {
        &self.monitor_events
    }

    /// Notes the event taps that were found.
    pub fn set_event_taps(&mut self, taps: Vec<EventTapInfo>)
        ensures
            *final(self) == (AppState { event_taps: taps, ..*old(self) }),
    {
        self.event_taps = taps;
    }

    /// The event taps that were found last.
    pub fn event_taps(&self) -> (r: &Vec<EventTapInfo>)
        ensures
            *r == self.event_taps,
    {
        &self.event_taps
    }

    /// The version of the settings, and how many devices have settings.
    pub fn config_summary(&self) -> (r: (u32, usize))
        ensures
            r.0 == self.config.schema_version,
            r.1 == self.config.devices@.len(),
    {
        (self.config.schema_version, self.config.devices.len())
    }

    /// What is recorded of the DPI of `key`.
    pub fn dpi_status_for(&self, key: &String) -> (r: Option<Load<DpiInfo>>)
        ensures
            r.deep_view() == if self.dpi_data.loads().dom().contains(key@) {
                Some(self.dpi_data.loads()[key@])
            } else {
                None
            },
    {
        match self.dpi_data.get(key) {
            Some(load) => Some(load.copy()),
            None => None,
        }
    }

    /// The device that is shown.
    pub fn current_record(&self) -> (r: Option<&DeviceRecord>)
        ensures
            match r {
                Some(record) => self.current() == Some(record.deep_view()) && *record
                    == self.device_list@[self.current_device as int] && self.current_device < self.device_list@.len(),
                None => self.current() is None,
            },
    {
        if self.current_device < self.device_list.len() {
            Some(&self.device_list[self.current_device])
        } else {
            None
        }
    }

    /// The key of the device that is shown.
    fn current_key(&self) -> (r: Option<String>)
        ensures
            r.deep_view() == self.selected(),
    {
        match self.current_record() {
            Some(record) => Some(record.config_key.copy()),
            None => None,
        }
    }

    /// The models whose pictures can be looked for, in order. A device that is
    /// asleep is among them.
    pub fn asset_models(&self) -> (r: Vec<(DeviceModelInfo, Option<String>)>)
        ensures
            r.deep_view() == models_of(self.device_list.deep_view(), self.device_list@.len() as int),
    {
        let ghost all = self.device_list.deep_view();
        let mut out: Vec<(DeviceModelInfo, Option<String>)> = Vec::new();
        let mut i: usize = 0;
        assert(out.deep_view() =~= models_of(all, 0));
        while i < self.device_list.len()
            invariant
                i <= self.device_list@.len(),
                all == self.device_list.deep_view(),
                out.deep_view() == models_of(all, i as int),
            decreases self.device_list@.len() - i,
        {
            let record: &DeviceRecord = &self.device_list[i];
            let ghost so_far = out.deep_view();
            assert(all[i as int] == record.deep_view());
            if let Some(model) = &record.model_info {
                out.push((model.copy(), record.codename.copy()));
                assert(out.deep_view() =~= so_far.push((model.deep_view(), record.codename.deep_view())));
            }
            i += 1;
        }
        out
    }

    /// How the agent is reached.
    pub fn agent_link(&self) -> (r: &AgentLink)
        ensures
            *r == self.agent_link,
    {
        &self.agent_link
    }

    /// The latest status of the agent; none unless it is connected.
    pub fn agent_status(&self) -> (r: Option<&AgentStatus>)
        ensures
            match r {
                Some(status) => self.agent_link == AgentLink::Ready(*status),
                None => !(self.agent_link is Ready),
            },
    {
        match &self.agent_link {
            AgentLink::Ready(status) => Some(status),
            _ => None,
        }
    }

    /// Notes how the agent is reached, and says whether that changed.
    pub fn set_agent_link(&mut self, link: AgentLink) -> (r: bool)
        ensures
            r == (old(self).agent_link != link),
            *final(self) == (AppState { agent_link: link, ..*old(self) }),
    {
        if self.agent_link == link {
            return false;
        }
        self.agent_link = link;
        true
    }

    /// Takes over a new snapshot, and says whether what is shown changed. The
    /// device that is shown stays so, wherever it stands now; if it is gone, the
    /// first one is shown. A device that is reached in another way is asked
    /// anew. With `force` the devices are taken over though they look the same.
    pub fn refresh_inventories(&mut self, new_list: &Vec<DeviceRecord>, force: bool) -> (r: (bool, Effects))
        ensures
            refresh_outcome(*old(self), *final(self), new_list.deep_view(), force, r.0, r.1.deep_view()),
    {
        let ghost before = *self;
        let merged_list = self.merge_inventory_snapshot(new_list);
        let ghost list = merged_list.deep_view();
        let changed = persist_identities(&mut self.config, &merged_list);
        let persist = if changed {
            Persist::Save
        } else {
            Persist::Nothing
        };
        let unchanged = same_look(&merged_list, &self.device_list);
        if unchanged && !force {
            let effects = Effects { write: None, edit: None, persist, project: false };
            assert(refreshed(before, *self, new_list.deep_view(), list, false));
            assert(effects.deep_view() == refresh_effects(before, list, false));
            return (false, effects);
        }
        let previous_key = self.current_key();
        let new_index = pick_initial_device(&merged_list, &previous_key);
        let rerouted = rerouted_keys(&self.device_list, &merged_list);
        let present = keys_of(&merged_list);
        forget_data(&mut self.dpi_data, &rerouted, &present);
        forget_data(&mut self.smartshift_data, &rerouted, &present);
        self.device_list = merged_list;
        self.current_device = new_index;
        self.dpi = self.dpi_for_current();
        proof {
            let pv = before.device_list.deep_view();
            assert(self.dpi_data.loads() =~= kept_data(before.dpi_data.loads(), pv, list));
            assert(self.dpi_data.attempts@ =~= kept_data(before.dpi_data.attempts@, pv, list));
            assert(self.smartshift_data.loads() =~= kept_data(before.smartshift_data.loads(), pv, list));
            assert(self.smartshift_data.attempts@ =~= kept_data(before.smartshift_data.attempts@, pv, list));
            assert(refreshed(before, *self, new_list.deep_view(), list, true));
        }
        let effects = Effects { write: None, edit: None, persist, project: true };
        assert(effects.deep_view() == refresh_effects(before, list, true));
        (true, effects)
    }

    /// Merges a new snapshot into the devices that are shown.
    pub fn merge_inventory_snapshot(&mut self, new_list: &Vec<DeviceRecord>) -> (r: Vec<DeviceRecord>)
        ensures
            *final(self) == (AppState { inventory_misses: final(self).inventory_misses, ..*old(self) }),
            shows(
                old(self).device_list.deep_view(),
                new_list.deep_view(),
                old(self).inventory_misses@,
                r.deep_view(),
            ),
            final(self).inventory_misses@ == misses_shown(
                old(self).device_list.deep_view(),
                new_list.deep_view(),
                old(self).inventory_misses@,
                r.deep_view(),
            ),
    {
        merge_snapshot(&self.device_list, new_list, &mut self.inventory_misses)
    }

    /// Shows the device at `idx`. Nothing happens for a place without a device
    /// or the place that is shown. Data that could not be read gets another
    /// try.
    pub fn set_current_device(&mut self, idx: usize) -> (r: Effects)
        ensures
            if idx >= old(self).device_list@.len() || idx == old(self).current_device {
                r.deep_view() == no_effects() && *final(self) == *old(self)
            } else {
                let key = old(self).device_list.deep_view()[idx as int].config_key;
                &&& r.deep_view() == (EffectsView { project: true, ..save_then_reload() })
                &&& *final(self) == (AppState {
                    current_device: idx,
                    dpi: final(self).dpi,
                    dpi_data: final(self).dpi_data,
                    smartshift_data: final(self).smartshift_data,
                    config: final(self).config,
                    ..*old(self)
                })
                &&& final(self).dpi == final(self).known_dpi()
                &&& final(self).dpi_data.loads() == without_failure(old(self).dpi_data.loads(), key)
                &&& final(self).dpi_data.attempts == old(self).dpi_data.attempts
                &&& final(self).smartshift_data.loads() == without_failure(old(self).smartshift_data.loads(), key)
                &&& final(self).smartshift_data.attempts == old(self).smartshift_data.attempts
                &&& final(self).config == (Config {
                    selected_device: final(self).config.selected_device,
                    ..old(self).config
                })
                &&& final(self).config.selected_device.deep_view() == Some(key)
            },
    {
        if idx >= self.device_list.len() || idx == self.current_device {
            return Effects::none();
        }
        self.current_device = idx;
        let key: String = self.device_list[idx].config_key.copy();
        retry_if_failed(&mut self.dpi_data, &key);
        retry_if_failed(&mut self.smartshift_data, &key);
        self.dpi = self.dpi_for_current();
        self.config.selected_device = Some(key);
        Effects { write: None, edit: None, persist: Persist::SaveThenReload, project: true }
    }

    /// Sets the DPI presets of the device that is shown.
    pub fn commit_dpi_presets(&mut self, presets: Vec<u32>) -> (r: Effects)
        ensures
            match old(self).selected() {
                Some(key) => {
                    &&& r.deep_view() == save_then_reload()
                    &&& final(self).stored(
                        old(self),
                        key,
                        (DeviceSettingsView { dpi_presets: presets@, ..old(self).config.device(key) }),
                    )
                },
                None => r.deep_view() == no_effects() && *final(self) == *old(self),
            },
    {
        match self.current_key() {
            Some(key) => {
                self.config.set_dpi_presets(key.as_str(), presets);
                Effects::reload()
            },
            None => Effects::none(),
        }
    }

    /// The DPI presets of the device that is shown.
    pub fn dpi_presets(&self) -> (r: Vec<u32>)
        ensures
            r@ == match self.selected() {
                Some(key) => self.config.device(key).dpi_presets,
                None => Seq::empty(),
            },
    {
        match self.current_record() {
            Some(record) => self.config.dpi_presets(record.config_key.as_str()),
            None => Vec::new(),
        }
    }

    /// What is known of the DPI of the device that is shown.
    pub fn current_dpi_status(&self) -> (r: Load<DpiInfo>)
        ensures
            r.deep_view() == match self.selected() {
                Some(key) => self.dpi_data.load(key),
                None => LoadView::Unknown,
            },
    {
        match self.current_record() {
            Some(record) => self.dpi_data.status(&record.config_key),
            None => Load::Unknown,
        }
    }

    /// Whether the DPI of the device that is shown has to be read.
    pub fn current_dpi_unqueried(&self) -> (r: bool)
        ensures
            r == (self.selected() matches Some(key) && !self.dpi_data.loads().dom().contains(key)),
    {
        match self.current_record() {
            Some(record) => self.dpi_data.unqueried(&record.config_key),
            None => false,
        }
    }

    /// The DPI to show for the device that is shown.
    pub fn dpi_for_current(&self) -> (r: u32)
        ensures
            r == self.known_dpi(),
    {
        match self.current_record() {
            Some(record) => match self.dpi_data.get(&record.config_key) {
                Some(Load::Ready(info)) => info.current as u32,
                _ => DEFAULT_DPI,
            },
            None => DEFAULT_DPI,
        }
    }

    /// Notes that the DPI of `key` is being read.
    pub fn mark_dpi_loading(&mut self, key: &String)
        ensures
            *final(self) == (AppState { dpi_data: final(self).dpi_data, ..*old(self) }),
            final(self).dpi_data.loads() == old(self).dpi_data.loads().insert(key@, LoadView::Loading),
            final(self).dpi_data.attempts == old(self).dpi_data.attempts,
    {
        self.dpi_data.mark_loading(key);
    }

    /// Forgets that the DPI of `key` is being read: the reader went away.
    pub fn clear_dpi_loading(&mut self, key: &String)
        ensures
            *final(self) == (AppState { dpi_data: final(self).dpi_data, ..*old(self) }),
            final(self).dpi_data.loads() == if old(self).dpi_data.load(key@) is Loading {
                old(self).dpi_data.loads().remove(key@)
            } else {
                old(self).dpi_data.loads()
            },
            final(self).dpi_data.attempts == old(self).dpi_data.attempts,
    {
        self.dpi_data.clear_loading(key);
    }

    /// Has the DPI of the device that is shown read again.
    pub fn retry_active_dpi(&mut self)
        ensures
            *final(self) == (AppState { dpi_data: final(self).dpi_data, ..*old(self) }),
            final(self).dpi_data.attempts == old(self).dpi_data.attempts,
            final(self).dpi_data.loads() == match old(self).selected() {
                Some(key) => old(self).dpi_data.loads().remove(key),
                None => old(self).dpi_data.loads(),
            },
    {
        if let Some(key) = self.current_key() {
            self.dpi_data.retry(&key);
        }
    }

    /// Takes in what reading the DPI of `key` over `route` came to. The DPI that
    /// is shown follows only for the device that is shown.
    pub fn store_dpi_info(&mut self, key: String, route: &DeviceRoute, result: Result<DpiInfo, WriteError>)
        ensures
            *final(self) == (AppState { dpi: final(self).dpi, dpi_data: final(self).dpi_data, ..*old(self) }),
            ({
                let list = old(self).device_list.deep_view();
                let present = has_record(list, key@);
                let usable = present && is_route_of(list, key@, route.deep_view());
                let permanent = result matches Err(error) && (error.kind == WriteErrorKind::FeatureUnsupported
                    || error.kind == WriteErrorKind::EmptyDpiList);
                &&& read_stored(
                    old(self).dpi_data,
                    final(self).dpi_data,
                    key@,
                    result,
                    permanent,
                    usable,
                    present,
                )
                &&& final(self).dpi == match result {
                    Ok(info) => if usable && old(self).selected() == Some(key@) {
                        info.current as u32
                    } else {
                        old(self).dpi
                    },
                    Err(_) => old(self).dpi,
                }
            }),
    {
        let is_active = match self.current_record() {
            Some(record) => record.config_key.same(&key),
            None => false,
        };
        let usable = matches_route(&self.device_list, &key, route);
        let present = contains_record(&self.device_list, &key);
        proof {
            lemma_routed_is_present(self.device_list.deep_view(), key@, route.deep_view());
        }
        let current: Option<u16> = match &result {
            Ok(info) => Some(info.current),
            Err(_) => None,
        };
        let permanent = match &result {
            Ok(_) => false,
            Err(error) => dpi_error_is_permanent(error),
        };
        let stored = self.dpi_data.store(&key, result, permanent, usable, present);
        if stored && is_active {
            if let Some(dpi) = current {
                self.dpi = dpi as u32;
            }
        }
    }

    /// What the sensor of the device that is shown supports, once it is known.
    pub fn active_dpi_capabilities(&self) -> (r: Option<&DpiCapabilities>)
        ensures
            match r {
                Some(capabilities) => self.selected() matches Some(key) && self.dpi_data.load(key) matches LoadView::Ready(
                    info,
                ) && capabilities.deep_view() == info.1,
                None => !(self.selected() matches Some(key) && self.dpi_data.load(key) is Ready),
            },
    {
        match self.current_record() {
            Some(record) => match self.dpi_data.get(&record.config_key) {
                Some(Load::Ready(info)) => Some(&info.capabilities),
                _ => None,
            },
            None => None,
        }
    }

    /// The supported DPI nearest to `dpi`, once it is known what is supported.
    pub fn normalize_active_dpi(&self, dpi: u32) -> (r: u32)
        ensures
            r == match self.selected() {
                Some(key) => match self.dpi_data.load(key) {
                    LoadView::Ready(info) => snapped(info.1, dpi),
                    _ => dpi,
                },
                None => dpi,
            },
    {
        match self.active_dpi_capabilities() {
            Some(capabilities) => capabilities.snap(dpi),
            None => dpi,
        }
    }

    /// What is known of the SmartShift of the device that is shown.
    pub fn current_smartshift_status(&self) -> (r: Load<SmartShift>)
        ensures
            r.deep_view() == match self.selected() {
                Some(key) => self.smartshift_data.load(key),
                None => LoadView::Unknown,
            },
    {
        match self.current_record() {
            Some(record) => self.smartshift_data.status(&record.config_key),
            None => Load::Unknown,
        }
    }

    /// Whether the SmartShift of the device that is shown has to be read.
    pub fn current_smartshift_unqueried(&self) -> (r: bool)
        ensures
            r == (self.selected() matches Some(key) && !self.smartshift_data.loads().dom().contains(key)),
    {
        match self.current_record() {
            Some(record) => self.smartshift_data.unqueried(&record.config_key),
            None => false,
        }
    }

    /// The SmartShift of the device that is shown, once it is known.
    pub fn current_smartshift_ready(&self) -> (r: Option<SmartShift>)
        ensures
            r == match self.selected() {
                Some(key) => match self.smartshift_data.load(key) {
                    LoadView::Ready(status) => Some(status),
                    _ => None,
                },
                None => None,
            },
    {
        match self.current_record() {
            Some(record) => match self.smartshift_data.get(&record.config_key) {
                Some(Load::Ready(status)) => Some(*status),
                _ => None,
            },
            None => None,
        }
    }

    /// Notes that the SmartShift of `key` is being read.
    pub fn mark_smartshift_loading(&mut self, key: &String)
        ensures
            *final(self) == (AppState { smartshift_data: final(self).smartshift_data, ..*old(self) }),
            final(self).smartshift_data.loads() == old(self).smartshift_data.loads().insert(key@, LoadView::Loading),
            final(self).smartshift_data.attempts == old(self).smartshift_data.attempts,
    {
        self.smartshift_data.mark_loading(key);
    }

    /// Forgets that the SmartShift of `key` is being read: the reader went away.
    pub fn clear_smartshift_loading(&mut self, key: &String)
        ensures
            *final(self) == (AppState { smartshift_data: final(self).smartshift_data, ..*old(self) }),
            final(self).smartshift_data.loads() == if old(self).smartshift_data.load(key@) is Loading {
                old(self).smartshift_data.loads().remove(key@)
            } else {
                old(self).smartshift_data.loads()
            },
            final(self).smartshift_data.attempts == old(self).smartshift_data.attempts,
    {
        self.smartshift_data.clear_loading(key);
    }

    /// Has the SmartShift of the device that is shown read again.
    pub fn retry_active_smartshift(&mut self)
        ensures
            *final(self) == (AppState { smartshift_data: final(self).smartshift_data, ..*old(self) }),
            final(self).smartshift_data.attempts == old(self).smartshift_data.attempts,
            final(self).smartshift_data.loads() == match old(self).selected() {
                Some(key) => old(self).smartshift_data.loads().remove(key),
                None => old(self).smartshift_data.loads(),
            },
    {
        if let Some(key) = self.current_key() {
            self.smartshift_data.retry(&key);
        }
    }

    /// Takes in what reading the SmartShift of `key` over `route` came to.
    pub fn store_smartshift_status(
        &mut self,
        key: String,
        route: &DeviceRoute,
        result: Result<SmartShift, WriteError>,
    )
        ensures
            *final(self) == (AppState { smartshift_data: final(self).smartshift_data, ..*old(self) }),
            ({
                let list = old(self).device_list.deep_view();
                let present = has_record(list, key@);
                let usable = present && is_route_of(list, key@, route.deep_view());
                let permanent = result matches Err(error) && error.kind == WriteErrorKind::FeatureUnsupported;
                read_stored(
                    old(self).smartshift_data,
                    final(self).smartshift_data,
                    key@,
                    result,
                    permanent,
                    usable,
                    present,
                )
            }),
    {
        let usable = matches_route(&self.device_list, &key, route);
        let present = contains_record(&self.device_list, &key);
        proof {
            lemma_routed_is_present(self.device_list.deep_view(), key@, route.deep_view());
        }
        let permanent = match &result {
            Ok(_) => false,
            Err(error) => smartshift_error_is_permanent(error),
        };
        let _ = self.smartshift_data.store(&key, result, permanent, usable, present);
    }

    /// Sets the SmartShift of the device that is shown: it is written to the
    /// device, stored, shown at once, and marked for being read back.
    pub fn commit_smartshift(&mut self, smartshift: SmartShift) -> (r: Effects)
        ensures
            smartshift_committed(*old(self), *final(self), smartshift, r.deep_view()),
    {
        let (key, write): (String, Option<DeviceWrite>) = match self.current_record() {
            Some(record) => (
                record.config_key.copy(),
                device_write(&record.route, DeviceChange::SmartShift(smartshift)),
            ),
            None => {
                return Effects::none();
            },
        };
        self.config.set_smartshift(key.as_str(), smartshift);
        self.smartshift_data.set_ready(&key, smartshift);
        let ghost before = self.smartshift_pending_confirm.deep_view();
        let ghost k = key@;
        if !list_contains(&self.smartshift_pending_confirm, &key) {
            self.smartshift_pending_confirm.push(key);
            proof {
                let now = self.smartshift_pending_confirm.deep_view();
                assert(now =~= before.push(k));
                lemma_push_contains(before, k);
            }
        }
        Effects { write, edit: None, persist: Persist::SaveThenReload, project: false }
    }

    /// Whether the wheel of the device that is shown is inverted.
    pub fn current_invert_scroll(&self) -> (r: bool)
        ensures
            r == (self.selected() matches Some(key) && self.config.device(key).invert_scroll),
    {
        match self.current_record() {
            Some(record) => self.config.invert_scroll(record.config_key.as_str()),
            None => false,
        }
    }

    /// Whether the wheel of the device that is shown can be inverted.
    pub fn current_scroll_inversion_supported(&self) -> (r: bool)
        ensures
            r == (self.current() matches Some(record) && record.capabilities matches Some(can)
                && can.scroll_inversion),
    {
        match self.current_record() {
            Some(record) => match record.capabilities {
                Some(can) => can.scroll_inversion,
                None => false,
            },
            None => false,
        }
    }

    /// Inverts the wheel of the device that is shown, or does not, if it can be
    /// inverted.
    pub fn commit_invert_scroll(&mut self, invert: bool) -> (r: Effects)
        ensures
            match old(self).current() {
                Some(record) => if record.capabilities matches Some(can) && can.scroll_inversion {
                    &&& r.deep_view() == save_then_reload()
                    &&& final(self).stored(
                        old(self),
                        record.config_key,
                        (DeviceSettingsView {
                            invert_scroll: invert,
                            ..old(self).config.device(record.config_key)
                        }),
                    )
                } else {
                    r.deep_view() == no_effects() && *final(self) == *old(self)
                },
                None => r.deep_view() == no_effects() && *final(self) == *old(self),
            },
    {
        if !self.current_scroll_inversion_supported() {
            return Effects::none();
        }
        match self.current_key() {
            Some(key) => {
                self.config.set_invert_scroll(key.as_str(), invert);
                Effects::reload()
            },
            None => Effects::none(),
        }
    }

    /// The wheel resolution stored for the device that is shown.
    pub fn current_scroll_resolution(&self) -> (r: Option<ScrollResolution>)
        ensures
            r == match self.selected() {
                Some(key) => self.config.device(key).scroll_resolution,
                None => None,
            },
    {
        match self.current_record() {
            Some(record) => self.config.scroll_resolution(record.config_key.as_str()),
            None => None,
        }
    }

    /// Whether the device that is shown has a high-resolution wheel.
    pub fn current_hires_wheel_supported(&self) -> (r: bool)
        ensures
            r == (self.current() matches Some(record) && record.capabilities matches Some(can) && can.hires_wheel),
    {
        match self.current_record() {
            Some(record) => match record.capabilities {
                Some(can) => can.hires_wheel,
                None => false,
            },
            None => false,
        }
    }

    /// Sets the wheel resolution of the device that is shown, or leaves it to
    /// the device, if it has such a wheel.
    pub fn commit_scroll_resolution(&mut self, resolution: Option<ScrollResolution>) -> (r: Effects)
        ensures
            match old(self).current() {
                Some(record) => if record.capabilities matches Some(can) && can.hires_wheel {
                    &&& r.deep_view() == save_then_reload()
                    &&& final(self).stored(
                        old(self),
                        record.config_key,
                        (DeviceSettingsView {
                            scroll_resolution: resolution,
                            ..old(self).config.device(record.config_key)
                        }),
                    )
                } else {
                    r.deep_view() == no_effects() && *final(self) == *old(self)
                },
                None => r.deep_view() == no_effects() && *final(self) == *old(self),
            },
    {
        let supported = self.current_hires_wheel_supported();
        match self.current_key() {
            Some(key) => if set_scroll_resolution_if_supported(
                &mut self.config,
                key.as_str(),
                supported,
                resolution,
            ) {
                Effects::reload()
            } else {
                Effects::none()
            },
            None => Effects::none(),
        }
    }

    /// What has to be read back of the device that is shown after its SmartShift
    /// was written: once, and only if it can be reached.
    pub fn take_active_smartshift_confirm(&mut self) -> (r: Option<(String, DeviceRoute)>)
        ensures
            confirm_taken(*old(self), *final(self), r.deep_view()),
    {
        let (key, route): (String, DeviceRoute) = match self.current_record() {
            Some(record) => match &record.route {
                Some(route) => (record.config_key.copy(), route.copy()),
                None => {
                    return None;
                },
            },
            None => {
                return None;
            },
        };
        let pending = list_contains(&self.smartshift_pending_confirm, &key);
        let rest = without(&self.smartshift_pending_confirm, &key);
        self.smartshift_pending_confirm = rest;
        if pending {
            Some((key, route))
        } else {
            None
        }
    }

    /// The lighting of the device that is shown, or `usual` where none is
    /// stored.
    pub fn lighting(&self, usual: Lighting) -> (r: Lighting)
        ensures
            r == match self.selected() {
                Some(key) => match self.config.device(key).lighting {
                    Some(lighting) => lighting,
                    None => usual,
                },
                None => usual,
            },
    {
        match self.current_record() {
            Some(record) => match self.config.lighting(record.config_key.as_str()) {
                Some(lighting) => lighting,
                None => usual,
            },
            None => usual,
        }
    }

    /// The lighting stored for `key`.
    pub fn lighting_for(&self, key: &str) -> (r: Option<Lighting>)
        ensures
            r == self.config.device(key@).lighting,
    {
        self.config.lighting(key)
    }

    /// Sets the lighting of the device that is shown: it is written to the device
    /// and stored.
    pub fn commit_lighting(&mut self, lighting: Lighting) -> (r: Effects)
        ensures
            match old(self).current() {
                Some(record) => {
                    &&& r.deep_view() == (EffectsView {
                        write: write_to(record.route, DeviceChange::Lighting(lighting)),
                        ..save_then_reload()
                    })
                    &&& final(self).stored(
                        old(self),
                        record.config_key,
                        (DeviceSettingsView {
                            lighting: Some(lighting),
                            ..old(self).config.device(record.config_key)
                        }),
                    )
                },
                None => r.deep_view() == no_effects() && *final(self) == *old(self),
            },
    {
        let (key, write): (String, Option<DeviceWrite>) = match self.current_record() {
            Some(record) => (
                record.config_key.copy(),
                device_write(&record.route, DeviceChange::Lighting(lighting)),
            ),
            None => {
                return Effects::none();
            },
        };
        self.config.set_lighting(key.as_str(), lighting);
        Effects { write, edit: None, persist: Persist::SaveThenReload, project: false }
    }

    /// Sets the DPI of the device that is shown: it is written to the device and
    /// stored. The DPI that is shown follows in any case.
    pub fn commit_dpi(&mut self, dpi: u32) -> (r: Effects)
        ensures
            match old(self).current() {
                Some(record) => {
                    &&& r.deep_view() == (EffectsView {
                        write: write_to(record.route, DeviceChange::Dpi(dpi)),
                        ..save_then_reload()
                    })
                    &&& *final(self) == (AppState { dpi, config: final(self).config, ..*old(self) })
                    &&& final(self).config.device_changed(
                        &old(self).config,
                        record.config_key,
                        (DeviceSettingsView { dpi: Some(dpi), ..old(self).config.device(record.config_key) }),
                    )
                },
                None => r.deep_view() == no_effects() && *final(self) == (AppState { dpi, ..*old(self) }),
            },
    {
        self.dpi = dpi;
        let (key, write): (String, Option<DeviceWrite>) = match self.current_record() {
            Some(record) => (record.config_key.copy(), device_write(&record.route, DeviceChange::Dpi(dpi))),
            None => {
                return Effects::none();
            },
        };
        self.config.set_dpi(key.as_str(), dpi);
        Effects { write, edit: None, persist: Persist::SaveThenReload, project: false }
    }

    /// The settings of the application.
    pub fn app_settings(&self) -> (r: &AppSettings)
        ensures
            *r == self.config.app_settings,
    {
        &self.config.app_settings
    }

    /// Starts the agent at login, or does not.
    pub fn set_launch_at_login(&mut self, enabled: bool) -> (r: Persist)
        ensures
            if old(self).config.app_settings.launch_at_login == enabled {
                r == Persist::Nothing && *final(self) == *old(self)
            } else {
                &&& r == Persist::SaveThenReload
                &&& *final(self) == with_settings(
                    *old(self),
                    (AppSettings { launch_at_login: enabled, ..old(self).config.app_settings }),
                )
            },
    {
        if self.config.app_settings.launch_at_login == enabled {
            return Persist::Nothing;
        }
        self.config.app_settings.launch_at_login = enabled;
        Persist::SaveThenReload
    }

    /// Shows the icon in the menu bar, or does not.
    pub fn set_show_in_menu_bar(&mut self, enabled: bool) -> (r: Persist)
        ensures
            if old(self).config.app_settings.show_in_menu_bar == enabled {
                r == Persist::Nothing && *final(self) == *old(self)
            } else {
                &&& r == Persist::SaveThenReload
                &&& *final(self) == with_settings(
                    *old(self),
                    (AppSettings { show_in_menu_bar: enabled, ..old(self).config.app_settings }),
                )
            },
    {
        if self.config.app_settings.show_in_menu_bar == enabled {
            return Persist::Nothing;
        }
        self.config.app_settings.show_in_menu_bar = enabled;
        Persist::SaveThenReload
    }

    /// Looks for updates, or does not.
    pub fn set_check_for_updates(&mut self, enabled: bool) -> (r: Persist)
        ensures
            if old(self).config.app_settings.check_for_updates == enabled {
                r == Persist::Nothing && *final(self) == *old(self)
            } else {
                &&& r == Persist::Save
                &&& *final(self) == with_settings(
                    *old(self),
                    (AppSettings { check_for_updates: enabled, ..old(self).config.app_settings }),
                )
            },
    {
        if self.config.app_settings.check_for_updates == enabled {
            return Persist::Nothing;
        }
        self.config.app_settings.check_for_updates = enabled;
        Persist::Save
    }

    /// Installs updates by itself, or does not.
    pub fn set_auto_install_updates(&mut self, enabled: bool) -> (r: Persist)
        ensures
            if old(self).config.app_settings.auto_install_updates == enabled {
                r == Persist::Nothing && *final(self) == *old(self)
            } else {
                &&& r == Persist::Save
                &&& *final(self) == with_settings(
                    *old(self),
                    (AppSettings { auto_install_updates: enabled, ..old(self).config.app_settings }),
                )
            },
    {
        if self.config.app_settings.auto_install_updates == enabled {
            return Persist::Nothing;
        }
        self.config.app_settings.auto_install_updates = enabled;
        Persist::Save
    }

    /// Sets the light or dark appearance.
    pub fn set_appearance(&mut self, appearance: Appearance) -> (r: Persist)
        ensures
            if old(self).config.app_settings.appearance == appearance {
                r == Persist::Nothing && *final(self) == *old(self)
            } else {
                &&& r == Persist::Save
                &&& *final(self) == with_settings(
                    *old(self),
                    (AppSettings { appearance: appearance, ..old(self).config.app_settings }),
                )
            },
    {
        if self.config.app_settings.appearance == appearance {
            return Persist::Nothing;
        }
        self.config.app_settings.appearance = appearance;
        Persist::Save
    }

    /// Sets the radius of corners, or leaves it to the theme.
    pub fn set_ui_radius(&mut self, radius: Option<u8>) -> (r: Persist)
        ensures
            if old(self).config.app_settings.ui_radius.deep_view() == radius.deep_view() {
                r == Persist::Nothing && *final(self) == *old(self)
            } else {
                &&& r == Persist::Save
                &&& *final(self) == with_settings(
                    *old(self),
                    (AppSettings { ui_radius: radius, ..old(self).config.app_settings }),
                )
            },
    {
        if self.config.app_settings.ui_radius.same(&radius) {
            return Persist::Nothing;
        }
        self.config.app_settings.ui_radius = radius;
        Persist::Save
    }

    /// Downloads pictures by itself, or does not.
    pub fn set_auto_download_assets(&mut self, enabled: bool) -> (r: Persist)
        ensures
            if old(self).config.app_settings.auto_download_assets == enabled {
                r == Persist::Nothing && *final(self) == *old(self)
            } else {
                &&& r == Persist::Save
                &&& *final(self) == with_settings(
                    *old(self),
                    (AppSettings { auto_download_assets: enabled, ..old(self).config.app_settings }),
                )
            },
    {
        if self.config.app_settings.auto_download_assets == enabled {
            return Persist::Nothing;
        }
        self.config.app_settings.auto_download_assets = enabled;
        Persist::Save
    }

    /// Sets where pictures are downloaded from.
    pub fn set_asset_source(&mut self, source: AssetSource) -> (r: Persist)
        ensures
            if old(self).config.app_settings.asset_source == source {
                r == Persist::Nothing && *final(self) == *old(self)
            } else {
                &&& r == Persist::Save
                &&& *final(self) == with_settings(
                    *old(self),
                    (AppSettings { asset_source: source, ..old(self).config.app_settings }),
                )
            },
    {
        if self.config.app_settings.asset_source == source {
            return Persist::Nothing;
        }
        self.config.app_settings.asset_source = source;
        Persist::Save
    }

    /// Sets the language, or follows the system. If it changed, the language is switched and all is drawn anew.
    pub fn set_language(&mut self, language: Option<String>) -> (r: Persist)
        ensures
            if old(self).config.app_settings.language.deep_view() == language.deep_view() {
                r == Persist::Nothing && *final(self) == *old(self)
            } else {
                &&& r == Persist::Save
                &&& *final(self) == with_settings(
                    *old(self),
                    (AppSettings { language: language, ..old(self).config.app_settings }),
                )
            },
    {
        if self.config.app_settings.language.same(&language) {
            return Persist::Nothing;
        }
        self.config.app_settings.language = language;
        Persist::Save
    }

    /// Sets the theme for the dark or the light appearance; none is the own one.
    pub fn set_theme(&mut self, dark: bool, name: Option<String>) -> (r: Persist)
        ensures
            if dark {
                if old(self).config.app_settings.theme_dark.deep_view() == name.deep_view() {
                    r == Persist::Nothing && *final(self) == *old(self)
                } else {
                    &&& r == Persist::Save
                    &&& *final(self) == with_settings(
                        *old(self),
                        (AppSettings { theme_dark: name, ..old(self).config.app_settings }),
                    )
                }
            } else {
                if old(self).config.app_settings.theme_light.deep_view() == name.deep_view() {
                    r == Persist::Nothing && *final(self) == *old(self)
                } else {
                    &&& r == Persist::Save
                    &&& *final(self) == with_settings(
                        *old(self),
                        (AppSettings { theme_light: name, ..old(self).config.app_settings }),
                    )
                }
            },
    {
        if dark {
            if self.config.app_settings.theme_dark.same(&name) {
                return Persist::Nothing;
            }
            self.config.app_settings.theme_dark = name;
        } else {
            if self.config.app_settings.theme_light.same(&name) {
                return Persist::Nothing;
            }
            self.config.app_settings.theme_light = name;
        }
        Persist::Save
    }

    /// Notes the answer to the question whether to look for updates, which is
    /// asked once.
    pub fn record_update_consent(&mut self, enabled: bool) -> (r: Persist)
        ensures
            r == Persist::Save,
            *final(self) == with_settings(
                *old(self),
                (AppSettings {
                    check_for_updates: enabled,
                    update_prompt_seen: true,
                    ..old(self).config.app_settings
                }),
            ),
    {
        self.config.app_settings.check_for_updates = enabled;
        self.config.app_settings.update_prompt_seen = true;
        Persist::Save
    }

    /// The chosen language; none follows the system.
    pub fn language(&self) -> (r: &Option<String>)
        ensures
            *r == self.config.app_settings.language,
    {
        &self.config.app_settings.language
    }

    /// Whether `key` is managed.
    pub fn device_enabled(&self, key: &str) -> (r: bool)
        ensures
            r == self.config.device(key@).enabled,
    {
        self.config.device_enabled(key)
    }

    /// Manages `key`, or leaves it alone.
    pub fn set_device_enabled(&mut self, key: &str, enabled: bool) -> (r: Persist)
        ensures
            if old(self).config.device(key@).enabled == enabled {
                r == Persist::Nothing && *final(self) == *old(self)
            } else {
                &&& r == Persist::SaveThenReload
                &&& final(self).stored(
                    old(self),
                    key@,
                    (DeviceSettingsView { enabled, ..old(self).config.device(key@) }),
                )
            },
    {
        if self.config.device_enabled(key) == enabled {
            return Persist::Nothing;
        }
        self.config.set_device_enabled(key, enabled);
        Persist::SaveThenReload
    }

    /// The thumb-wheel sensitivity that holds for `key`.
    pub fn device_thumbwheel_sensitivity(&self, key: &str) -> (r: i32)
        ensures
            r == self.config.sensitivity(key@),
    {
        self.config.thumbwheel_sensitivity(key)
    }

    /// Sets the thumb-wheel sensitivity of `key`, brought into the range. The
    /// sensitivity for all devices means none of its own: `key` then follows it.
    pub fn set_device_thumbwheel_sensitivity(&mut self, key: &str, sensitivity: i32) -> (r: Persist)
        ensures
            ({
                let wanted = clamped_sensitivity(sensitivity);
                let own = if wanted != old(self).config.app_settings.thumbwheel_sensitivity {
                    Some(wanted)
                } else {
                    None
                };
                if old(self).config.device(key@).thumbwheel_sensitivity == own {
                    r == Persist::Nothing && *final(self) == *old(self)
                } else {
                    &&& r == Persist::SaveThenReload
                    &&& final(self).stored(
                        old(self),
                        key@,
                        (DeviceSettingsView { thumbwheel_sensitivity: own, ..old(self).config.device(key@) }),
                    )
                }
            }),
            final(self).config.sensitivity(key@) == clamped_sensitivity(sensitivity),
    {
        let wanted: i32 = clamp_sensitivity(sensitivity);
        let own: Option<i32> = if wanted != self.config.app_settings.thumbwheel_sensitivity {
            Some(wanted)
        } else {
            None
        };
        if self.config.device_sensitivity(key).same(&own) {
            return Persist::Nothing;
        }
        self.config.set_device_thumbwheel_sensitivity(key, own);
        Persist::SaveThenReload
    }

    /// Sets the thumb-wheel sensitivity for all devices, brought into the range.
    pub fn set_thumbwheel_sensitivity(&mut self, sensitivity: i32) -> (r: Persist)
        ensures
            if old(self).config.app_settings.thumbwheel_sensitivity == clamped_sensitivity(sensitivity) {
                r == Persist::Nothing && *final(self) == *old(self)
            } else {
                &&& r == Persist::SaveThenReload
                &&& *final(self) == with_settings(
                    *old(self),
                    (AppSettings {
                        thumbwheel_sensitivity: clamped_sensitivity(sensitivity),
                        ..old(self).config.app_settings
                    }),
                )
            },
    {
        let wanted: i32 = clamp_sensitivity(sensitivity);
        if self.config.app_settings.thumbwheel_sensitivity == wanted {
            return Persist::Nothing;
        }
        self.config.app_settings.thumbwheel_sensitivity = wanted;
        Persist::SaveThenReload
    }

    /// Binds a button of the device that is shown. The binding is shown at once;
    /// it is stored only if there is a device.
    pub fn commit_binding(&mut self, button: ButtonId, action: Action) -> (r: Effects)
        ensures
            *final(self) == (AppState { button_bindings: final(self).button_bindings, ..*old(self) }),
            final(self).button_bindings@ == old(self).button_bindings@.insert(button, action),
            r.deep_view() == match old(self).selected() {
                Some(key) => EffectsView {
                    edit: Some(BindingEditView { key, change: BindingChange::Single(button, action) }),
                    ..save_then_reload()
                },
                None => no_effects(),
            },
    {
        self.button_bindings.insert(button, action);
        match self.current_key() {
            Some(key) => Effects {
                write: None,
                edit: Some(BindingEdit { key, change: BindingChange::Single(button, action) }),
                persist: Persist::SaveThenReload,
                project: false,
            },
            None => Effects::none(),
        }
    }

    /// Whose bindings are shown: those of the device that is shown, with what the
    /// application in front overrides.
    pub fn bindings_for_current(&self) -> (r: HookProjection)
        ensures
            r.deep_view() == (HookProjectionView {
                key: self.selected(),
                app: self.current_app_bundle.deep_view(),
            }),
    {
        HookProjection { key: self.current_key(), app: self.current_app_bundle.copy() }
    }

    /// Where the gestures that are shown come from; `owner` is the button that
    /// owns the gestures of the device that is shown.
    pub fn gesture_bindings_for_current(&self, owner: Option<ButtonId>) -> (r: GestureSource)
        ensures
            r == match (self.selected(), owner) {
                (Some(_), Some(ButtonId::GestureButton)) => GestureSource::Seeded,
                (Some(_), Some(button)) => GestureSource::Stored(button),
                _ => GestureSource::Nothing,
            },
    {
        if self.current_record().is_none() {
            return GestureSource::Nothing;
        }
        match owner {
            Some(ButtonId::GestureButton) => GestureSource::Seeded,
            Some(button) => GestureSource::Stored(button),
            None => GestureSource::Nothing,
        }
    }

    /// Makes `button` the one that owns the gestures of the device that is shown,
    /// or turns gestures off.
    pub fn commit_gesture_owner(&mut self, button: Option<ButtonId>) -> (r: Effects)
        ensures
            *final(self) == *old(self),
            r.deep_view() == match old(self).selected() {
                Some(key) => EffectsView {
                    edit: Some(BindingEditView { key, change: BindingChange::Owner(button) }),
                    project: true,
                    ..save_then_reload()
                },
                None => no_effects(),
            },
    {
        match self.current_key() {
            Some(key) => Effects {
                write: None,
                edit: Some(BindingEdit { key, change: BindingChange::Owner(button) }),
                persist: Persist::SaveThenReload,
                project: true,
            },
            None => Effects::none(),
        }
    }

    /// Binds a gesture of the device that is shown; `owner` is the button that
    /// owns its gestures. Nothing happens while gestures are off.
    pub fn commit_gesture_binding(
        &mut self,
        direction: GestureDirection,
        action: Action,
        owner: Option<ButtonId>,
    ) -> (r: Effects)
        ensures
            match (old(self).selected(), owner) {
                (Some(key), Some(button)) => {
                    &&& *final(self) == (AppState { gesture_bindings: final(self).gesture_bindings, ..*old(self) })
                    &&& final(self).gesture_bindings@ == old(self).gesture_bindings@.insert(direction, action)
                    &&& r.deep_view() == (EffectsView {
                        edit: Some(
                            BindingEditView { key, change: BindingChange::Direction(button, direction, action) },
                        ),
                        ..save_then_reload()
                    })
                },
                _ => r.deep_view() == no_effects() && *final(self) == *old(self),
            },
    {
        match (self.current_key(), owner) {
            (Some(key), Some(button)) => {
                self.gesture_bindings.insert(direction, action);
                Effects {
                    write: None,
                    edit: Some(
                        BindingEdit { key, change: BindingChange::Direction(button, direction, action) },
                    ),
                    persist: Persist::SaveThenReload,
                    project: false,
                }
            },
            _ => Effects::none(),
        }
    }
}

/// As many of the events as are kept: the latest.
pub open spec fn latest(events: Seq<MonitorEvent>) -> Seq<MonitorEvent> {
    if events.len() > MONITOR_EVENTS_MAX {
        events.skip(events.len() - MONITOR_EVENTS_MAX)
    } else {
        events
    }
}

/// The models of the first `n` devices, with their names.
pub open spec fn models_of(list: Seq<DeviceRecordView>, n: int) -> Seq<(DeviceModelInfoView, Option<Seq<char>>)>
    decreases n,
{
    if n <= 0 {
        Seq::empty()
    } else {
        match list[n - 1].model_info {
            Some(model) => models_of(list, n - 1).push((model, list[n - 1].codename)),
            None => models_of(list, n - 1),
        }
    }
}

/// The statuses without that of `key`, if it says that reading failed.
pub open spec fn without_failure<V>(loads: Map<Seq<char>, LoadView<V>>, key: Seq<char>) -> Map<Seq<char>, LoadView<V>> {
    if loads.dom().contains(key) && loads[key] is Failed {
        loads.remove(key)
    } else {
        loads
    }
}

fn retry_if_failed<T: Value>(data: &mut LazyDeviceData<T>, key: &String)
    ensures
        final(data).loads() == without_failure(old(data).loads(), key@),
        final(data).attempts == old(data).attempts,
{
    let failed = match data.get(key) {
        Some(Load::Failed(_)) => true,
        _ => false,
    };
    if failed {
        data.retry(key);
    }
}

/// What the data of `key` becomes by a read. `usable` tells that the answer is
/// of the way in which the device is reached, `present` that the device is
/// there.
pub open spec fn read_stored<T: Value>(
    before: LazyDeviceData<T>,
    after: LazyDeviceData<T>,
    key: Seq<char>,
    result: Result<T, WriteError>,
    permanent: bool,
    usable: bool,
    present: bool,
) -> bool {
    &&& !present ==> {
        &&& after.loads() == before.loads().remove(key)
        &&& after.attempts@ == before.attempts@.remove(key)
    }
    &&& present && !usable ==> {
        &&& after.loads() == if before.load(key) is Loading {
            before.loads().remove(key)
        } else {
            before.loads()
        }
        &&& after.attempts == before.attempts
    }
    &&& usable ==> match result {
        Ok(data) => {
            &&& after.loads() == before.loads().insert(key, LoadView::Ready(data.deep_view()))
            &&& after.attempts@ == before.attempts@.remove(key)
        },
        Err(error) => if permanent {
            &&& after.loads() == before.loads().insert(key, LoadView::Unsupported(error.message@))
            &&& after.attempts == before.attempts
        } else {
            let tries = crate::load::tried_once_more(before.attempts@, key);
            &&& after.attempts@ == before.attempts@.insert(key, tries as u8)
            &&& after.loads() == if tries >= crate::load::READ_BUDGET {
                before.loads().insert(key, LoadView::Failed(error.message@))
            } else {
                before.loads().remove(key)
            }
        },
    }
}

/// What becomes of the state by a new snapshot that makes `list` what is shown.
/// If `taken` is false, the devices stay as they were shown.
pub open spec fn refreshed(
    before: AppState,
    after: AppState,
    new: Seq<DeviceRecordView>,
    list: Seq<DeviceRecordView>,
    taken: bool,
) -> bool {
    let previous = before.device_list.deep_view();
    &&& shows(previous, new, before.inventory_misses@, list)
    &&& after.inventory_misses@ == misses_shown(previous, new, before.inventory_misses@, list)
    &&& identities_remembered(&before.config, &after.config, list, list.len() as int)
    &&& if taken {
        &&& after == (AppState {
            current_device: after.current_device,
            dpi: after.dpi,
            dpi_data: after.dpi_data,
            inventory_misses: after.inventory_misses,
            smartshift_data: after.smartshift_data,
            device_list: after.device_list,
            config: after.config,
            ..before
        })
        &&& after.device_list.deep_view() == list
        &&& after.current_device == shown_place(list, before.selected())
        &&& after.dpi == after.known_dpi()
        &&& after.dpi_data.loads() == kept_data(before.dpi_data.loads(), previous, list)
        &&& after.dpi_data.attempts@ == kept_data(before.dpi_data.attempts@, previous, list)
        &&& after.smartshift_data.loads() == kept_data(before.smartshift_data.loads(), previous, list)
        &&& after.smartshift_data.attempts@ == kept_data(before.smartshift_data.attempts@, previous, list)
    } else {
        after == (AppState { inventory_misses: after.inventory_misses, config: after.config, ..before })
    }
}

/// A new snapshot was taken over, or not where nothing that is shown differs and
/// it is not forced.
pub open spec fn refresh_outcome(
    before: AppState,
    after: AppState,
    new: Seq<DeviceRecordView>,
    force: bool,
    taken: bool,
    effects: EffectsView,
) -> bool {
    exists|list: Seq<DeviceRecordView>|
        #![trigger refreshed(before, after, new, list, taken)]
        refreshed(before, after, new, list, taken) && effects == refresh_effects(before, list, taken) && taken == (force
            || !looks_the_same(list, before.device_list.deep_view()))
}

/// What a new snapshot that makes `list` what is shown calls for.
pub open spec fn refresh_effects(before: AppState, list: Seq<DeviceRecordView>, taken: bool) -> EffectsView {
    EffectsView {
        persist: if has_news(&before.config, list) {
            Persist::Save
        } else {
            Persist::Nothing
        },
        project: taken,
        ..no_effects()
    }
}

/// The list without `key`.
fn without(list: &Vec<String>, key: &String) -> (r: Vec<String>)
    ensures
        forall|k: Seq<char>| #[trigger] r.deep_view().contains(k) <==> k != key@ && list.deep_view().contains(k),
{
    let ghost all = list.deep_view();
    let mut out: Vec<String> = Vec::new();
    let mut i: usize = 0;
    while i < list.len()
        invariant
            i <= list@.len(),
            all == list.deep_view(),
            forall|k: Seq<char>| #[trigger] out.deep_view().contains(k) <==> k != key@ && all.take(i as int).contains(
                k,
            ),
        decreases list@.len() - i,
    {
        let ghost so_far = out.deep_view();
        let ghost one = all[i as int];
        proof {
            assert(all.take(i + 1) =~= all.take(i as int).push(one));
            lemma_push_contains(all.take(i as int), one);
        }
        if !list[i].same(key) {
            out.push(list[i].copy());
            proof {
                assert(out.deep_view() =~= so_far.push(one));
                lemma_push_contains(so_far, one);
            }
        }
        i += 1;
    }
    assert(all.take(list@.len() as int) =~= all);
    out
}

/// Stores the wheel resolution of `key`, if its device has such a wheel, and says
/// whether it has.
pub fn set_scroll_resolution_if_supported(
    config: &mut Config,
    key: &str,
    supported: bool,
    resolution: Option<ScrollResolution>,
) -> (r: bool)
    ensures
        r == supported,
        if supported {
            final(config).device_changed(
                old(config),
                key@,
                (DeviceSettingsView { scroll_resolution: resolution, ..old(config).device(key@) }),
            )
        } else {
            *final(config) == *old(config)
        },
{
    if !supported {
        return false;
    }
    config.set_scroll_resolution(key, resolution);
    true
}

/// The device that is shown stays so over a new snapshot, wherever it stands
/// then.
pub proof fn law_selection_survives_a_refresh(
    before: AppState,
    after: AppState,
    new: Seq<DeviceRecordView>,
    list: Seq<DeviceRecordView>,
)
    requires
        refreshed(before, after, new, list, true),
        before.selected() is Some,
        has_record(list, before.selected()->0),
    ensures
        after.selected() == before.selected(),
{
    let key = before.selected()->0;
    let i = choose|i: int| 0 <= i < list.len() && (#[trigger] list[i]).config_key == key;
    let k = crate::records::lemma_first_of(list, key, i);
    crate::records::lemma_first_record(list, key, k);
}

/// What was read of a device is kept over a new snapshot as long as the device
/// is there and reached in the same way, and is read anew otherwise.
pub proof fn law_rerouted_device_is_read_anew<V>(
    data: Map<Seq<char>, V>,
    previous: Seq<DeviceRecordView>,
    list: Seq<DeviceRecordView>,
    key: Seq<char>,
)
    ensures
        is_rerouted(previous, list, key) ==> !kept_data(data, previous, list).dom().contains(key),
        data.dom().contains(key) && has_record(list, key) && !is_rerouted(previous, list, key) ==> kept_data(
            data,
            previous,
            list,
        ).dom().contains(key) && kept_data(data, previous, list)[key] == data[key],
{
}

/// What was written to a device that can be reached is read back: once, and not
/// again before the next write.
pub proof fn law_write_is_read_back_once(
    before: AppState,
    written: AppState,
    taken: AppState,
    later: AppState,
    smartshift: SmartShift,
    effects: EffectsView,
    first: Option<(Seq<char>, DeviceRouteView)>,
    second: Option<(Seq<char>, DeviceRouteView)>,
)
    requires
        before.current() matches Some(record) && record.route is Some,
        smartshift_committed(before, written, smartshift, effects),
        confirm_taken(written, taken, first),
        confirm_taken(taken, later, second),
    ensures
        first == Some((before.current()->0.config_key, before.current()->0.route->0)),
        second is None,
{
    let key = before.current()->0.config_key;
    assert(written.smartshift_pending_confirm.deep_view().contains(key));
    assert(!taken.smartshift_pending_confirm.deep_view().contains(key));
}

/// What was written is shown at once.
pub proof fn law_write_is_shown_at_once(
    before: AppState,
    written: AppState,
    smartshift: SmartShift,
    effects: EffectsView,
)
    requires
        before.current() is Some,
        smartshift_committed(before, written, smartshift, effects),
    ensures
        written.selected() == before.selected(),
        written.smartshift_data.load(written.selected()->0) == LoadView::Ready(smartshift),
        written.config.device(written.selected()->0).smartshift == Some(smartshift),
{
}

/// Every device of a new snapshot is shown as the snapshot has it, online or
/// not, with its route and its capabilities, whether or not anything else
/// changed.
pub proof fn law_new_snapshot_is_shown(
    before: AppState,
    after: AppState,
    new: Seq<DeviceRecordView>,
    force: bool,
    taken: bool,
    effects: EffectsView,
    i: int,
)
    requires
        refresh_outcome(before, after, new, force, taken, effects),
        0 <= i < new.len(),
        forall|j: int| i < j < new.len() ==> (#[trigger] new[j]).config_key != new[i].config_key,
    ensures
        exists|k: int|
            0 <= k < after.device_list@.len() && {
                let shown = #[trigger] after.device_list@[k];
                &&& shown.config_key@ == new[i].config_key
                &&& shown.online == new[i].online
                &&& shown.route.deep_view() == new[i].route
                &&& shown.capabilities == new[i].capabilities
            },
        taken ==> after.device_list.deep_view().contains(new[i]),
{
    let list = choose|list: Seq<DeviceRecordView>|
        #![trigger refreshed(before, after, new, list, taken)]
        refreshed(before, after, new, list, taken) && effects == refresh_effects(before, list, taken) && taken == (force
            || !looks_the_same(list, before.device_list.deep_view()));
    crate::records::law_new_record_is_shown(
        before.device_list.deep_view(),
        new,
        before.inventory_misses@,
        list,
        i,
    );
    let k = choose|k: int| 0 <= k < list.len() && list[k] == new[i];
    let all = after.device_list.deep_view();
    assert(list[k].config_key == all[k].config_key);
    assert(all[k] == after.device_list@[k].deep_view());
    crate::records::law_record_means_what_it_holds(after.device_list@[k]);
}

/// A snapshot counts as a change exactly if it was forced or what is shown
/// differs: the devices, their routes, their online flags or their capabilities.
/// Otherwise nothing that is shown changes, and with a change the bindings are
/// built anew.
pub proof fn law_change_is_told(
    before: AppState,
    after: AppState,
    new: Seq<DeviceRecordView>,
    force: bool,
    taken: bool,
    effects: EffectsView,
)
    requires
        refresh_outcome(before, after, new, force, taken, effects),
    ensures
        effects.project == taken,
        force ==> taken,
        taken && !force ==> after.device_list@.len() != before.device_list@.len() || exists|k: int|
            0 <= k < after.device_list@.len() && {
                let (now, was) = (#[trigger] after.device_list@[k].deep_view(), before.device_list@[k].deep_view());
                ||| now.config_key != was.config_key
                ||| now.route != was.route
                ||| now.online != was.online
                ||| now.capabilities != was.capabilities
            },
        !taken ==> {
            &&& after.device_list == before.device_list
            &&& after.current_device == before.current_device
            &&& after.dpi == before.dpi
            &&& after.dpi_data == before.dpi_data
            &&& after.smartshift_data == before.smartshift_data
        },
        taken ==> after.dpi == after.known_dpi(),
        after.button_bindings == before.button_bindings,
        after.gesture_bindings == before.gesture_bindings,
        after.smartshift_pending_confirm == before.smartshift_pending_confirm,
        after.agent_link == before.agent_link,
        after.current_app_bundle == before.current_app_bundle,
        after.active_button == before.active_button,
        after.last_inventory == before.last_inventory,
        after.monitor_events == before.monitor_events,
        after.event_taps == before.event_taps,
{
    let list = choose|list: Seq<DeviceRecordView>|
        #![trigger refreshed(before, after, new, list, taken)]
        refreshed(before, after, new, list, taken) && effects == refresh_effects(before, list, taken) && taken == (force
            || !looks_the_same(list, before.device_list.deep_view()));
    let was = before.device_list.deep_view();
    if taken && !force && list.len() == was.len() {
        let k = choose|k: int|
            0 <= k < list.len() && !((#[trigger] list[k]).config_key == was[k].config_key && list[k].route
                == was[k].route && list[k].online == was[k].online && list[k].capabilities == was[k].capabilities);
        assert(list[k] == after.device_list@[k].deep_view());
        assert(was[k] == before.device_list@[k].deep_view());
    }
}

/// A new snapshot alone has nothing written to a device and the agent load
/// nothing; what is remembered of devices is saved if it changed.
pub proof fn law_snapshot_saves_what_it_changed(
    before: AppState,
    after: AppState,
    new: Seq<DeviceRecordView>,
    force: bool,
    taken: bool,
    effects: EffectsView,
    key: Seq<char>,
)
    requires
        refresh_outcome(before, after, new, force, taken, effects),
    ensures
        effects.write is None,
        effects.edit is None,
        effects.persist != Persist::SaveThenReload,
        after.config.device(key) != before.config.device(key) ==> effects.persist == Persist::Save,
        after.config.selected_device == before.config.selected_device,
        after.config.app_settings == before.config.app_settings,
{
    let list = choose|list: Seq<DeviceRecordView>|
        #![trigger refreshed(before, after, new, list, taken)]
        refreshed(before, after, new, list, taken) && effects == refresh_effects(before, list, taken) && taken == (force
            || !looks_the_same(list, before.device_list.deep_view()));
    if !has_news(&before.config, list) {
        lemma_no_news(&before.config, list, list.len() as int, key);
    }
    assert(after.config.device(key) == (DeviceSettingsView {
        identity: crate::records::remembered(&before.config, list, list.len() as int, key),
        ..before.config.device(key)
    }));
}

proof fn lemma_no_news(config: &Config, list: Seq<DeviceRecordView>, n: int, key: Seq<char>)
    requires
        0 <= n <= list.len(),
        !has_news(config, list),
    ensures
        crate::records::remembered(config, list, n, key) == config.device(key).identity,
    decreases n,
{
    if n > 0 {
        lemma_no_news(config, list, n - 1, key);
        assert(!crate::records::is_news(config, list, n - 1));
    }
}

/// The device that was shown is shown after a new snapshot if it is still
/// there; if it is gone, the first device is.
pub proof fn law_shown_device_stays_shown(
    before: AppState,
    after: AppState,
    new: Seq<DeviceRecordView>,
    force: bool,
    effects: EffectsView,
    key: Seq<char>,
)
    requires
        refresh_outcome(before, after, new, force, true, effects),
        before.current_device < before.device_list@.len(),
        before.device_list@[before.current_device as int].config_key@ == key,
    ensures
        (exists|k: int| 0 <= k < after.device_list@.len() && (#[trigger] after.device_list@[k]).config_key@ == key)
            ==> after.current_device < after.device_list@.len() && after.device_list@[after.current_device as int].config_key@
            == key,
        (forall|k: int| 0 <= k < after.device_list@.len() ==> (#[trigger] after.device_list@[k]).config_key@ != key)
            ==> after.current_device == 0,
{
    let list = choose|list: Seq<DeviceRecordView>|
        #![trigger refreshed(before, after, new, list, true)]
        refreshed(before, after, new, list, true) && effects == refresh_effects(before, list, true);
    let was = before.device_list.deep_view();
    assert(was[before.current_device as int] == before.device_list@[before.current_device as int].deep_view());
    assert(before.selected() == Some(key));
    if exists|k: int| 0 <= k < after.device_list@.len() && (#[trigger] after.device_list@[k]).config_key@ == key {
        let k = choose|k: int| 0 <= k < after.device_list@.len() && (#[trigger] after.device_list@[k]).config_key@ == key;
        assert(list[k].config_key == key);
        crate::records::law_saved_device_is_shown(list, key, k);
        let p = after.current_device as int;
        assert(list[p] == after.device_list@[p].deep_view());
    } else {
        assert forall|k: int| 0 <= k < list.len() implies (#[trigger] list[k]).config_key != key by {
            assert(list[k] == after.device_list@[k].deep_view());
            assert(after.device_list@[k].config_key@ != key);
        }
        crate::records::law_unknown_device_shows_the_first(list, key);
    }
}

/// What was read of a device that is reached as before is kept; of a device that
/// is gone, or reached in another way, it is forgotten and read anew.
pub proof fn law_read_data_belongs_to_the_route(
    before: AppState,
    after: AppState,
    new: Seq<DeviceRecordView>,
    force: bool,
    effects: EffectsView,
    key: Seq<char>,
    p: int,
    q: int,
)
    requires
        refresh_outcome(before, after, new, force, true, effects),
        crate::records::keys_differ(before.device_list.deep_view()),
        0 <= p < before.device_list@.len(),
        before.device_list.deep_view()[p].config_key == key,
    ensures
        0 <= q < after.device_list@.len() && after.device_list.deep_view()[q].config_key == key ==> {
            let kept = after.device_list.deep_view()[q].route == before.device_list.deep_view()[p].route;
            &&& after.dpi_data.load(key) == if kept {
                before.dpi_data.load(key)
            } else {
                LoadView::Unknown
            }
            &&& after.smartshift_data.load(key) == if kept {
                before.smartshift_data.load(key)
            } else {
                LoadView::Unknown
            }
            &&& !kept ==> !after.dpi_data.attempts@.dom().contains(key) && !after.smartshift_data.attempts@.dom().contains(
                key,
            )
            &&& kept ==> (after.dpi_data.attempts@.dom().contains(key) <==> before.dpi_data.attempts@.dom().contains(key))
                && (after.smartshift_data.attempts@.dom().contains(key)
                <==> before.smartshift_data.attempts@.dom().contains(key))
            &&& kept && before.dpi_data.attempts@.dom().contains(key) ==> after.dpi_data.attempts@[key]
                == before.dpi_data.attempts@[key]
            &&& kept && before.smartshift_data.attempts@.dom().contains(key) ==> after.smartshift_data.attempts@[key]
                == before.smartshift_data.attempts@[key]
        },
        (forall|k: int| 0 <= k < after.device_list@.len() ==> (#[trigger] after.device_list.deep_view()[k]).config_key
            != key) ==> after.dpi_data.load(key) is Unknown && after.smartshift_data.load(key) is Unknown,
{
    let list = choose|list: Seq<DeviceRecordView>|
        #![trigger refreshed(before, after, new, list, true)]
        refreshed(before, after, new, list, true) && effects == refresh_effects(before, list, true);
    let was = before.device_list.deep_view();
    crate::records::law_no_device_is_shown_twice(was, new, before.inventory_misses@, list);
    if 0 <= q < list.len() && list[q].config_key == key {
        assert(has_record(list, key));
        if list[q].route != was[p].route {
            assert(is_rerouted(was, list, key));
        } else if is_rerouted(was, list, key) {
            let (a, b) = choose|a: int, b: int|
                #![trigger list[a], was[b]]
                0 <= a < list.len() && 0 <= b < was.len() && list[a].config_key == key && was[b].config_key == key
                    && was[b].route != list[a].route;
            if a != q {
                assert(list[a].config_key != list[q].config_key);
            }
            if b != p {
                assert(was[b].config_key != was[p].config_key);
            }
        }
    }
}

/// The DPI that is shown is the one that was read of the device that is shown,
/// and the default as long as none was.
pub proof fn law_shown_dpi_is_that_of_the_device(state: AppState)
    ensures
        state.current_device < state.device_list@.len() ==> {
            let key = state.device_list@[state.current_device as int].config_key@;
            &&& state.dpi_data.status@.dom().contains(key) ==> match state.dpi_data.status@[key] {
                Load::Ready(info) => state.known_dpi() == info.current,
                _ => state.known_dpi() == DEFAULT_DPI,
            }
            &&& !state.dpi_data.status@.dom().contains(key) ==> state.known_dpi() == DEFAULT_DPI
        },
        state.current_device >= state.device_list@.len() ==> state.known_dpi() == DEFAULT_DPI,
{
    if state.current_device < state.device_list@.len() {
        let place = state.current_device as int;
        assert(state.device_list.deep_view()[place] == state.device_list@[place].deep_view());
    }
}

/// The device that is shown is the one at its place, if there is one.
pub proof fn law_shown_device_stands_at_its_place(state: AppState)
    ensures
        state.current_device < state.device_list@.len() ==> {
            let own = state.device_list@[state.current_device as int];
            &&& state.current() == Some(own.deep_view())
            &&& state.selected() == Some(own.config_key@)
        },
        state.current_device >= state.device_list@.len() ==> state.current() is None && state.selected() is None,
{
}

/// SmartShift is written to the device that is shown, if it can be reached, and
/// stored for it alone. What is stored and known of other devices stays.
pub proof fn law_smartshift_goes_to_the_device(
    before: AppState,
    after: AppState,
    smartshift: SmartShift,
    effects: EffectsView,
    other: Seq<char>,
)
    requires
        smartshift_committed(before, after, smartshift, effects),
        before.current() is Some,
    ensures
        ({
            let own = before.current()->0;
            &&& own.route matches Some(route) ==> effects.write == Some(
                DeviceWriteView { route, change: DeviceChange::SmartShift(smartshift) },
            )
            &&& own.route is None ==> effects.write is None
            &&& effects.persist == Persist::SaveThenReload
            &&& effects.edit is None && !effects.project
            &&& after.config.device(own.config_key) == (DeviceSettingsView {
                smartshift: Some(smartshift),
                ..before.config.device(own.config_key)
            })
            &&& other != own.config_key ==> after.config.device(other) == before.config.device(other)
                && after.smartshift_data.load(other) == before.smartshift_data.load(other)
                && (after.smartshift_data.attempts@.dom().contains(other)
                <==> before.smartshift_data.attempts@.dom().contains(other))
                && (before.smartshift_data.attempts@.dom().contains(other) ==> after.smartshift_data.attempts@[other]
                == before.smartshift_data.attempts@[other])
                && (after.smartshift_pending_confirm.deep_view().contains(other)
                <==> before.smartshift_pending_confirm.deep_view().contains(other))
            &&& after.smartshift_data.load(own.config_key) == LoadView::Ready(smartshift)
            &&& !after.smartshift_data.attempts@.dom().contains(own.config_key)
            &&& after.smartshift_pending_confirm.deep_view().contains(own.config_key)
            &&& after.dpi_data == before.dpi_data && after.device_list == before.device_list && after.current_device
                == before.current_device
        }),
{
}

/// Without a device there is nothing to set.
pub proof fn law_no_device_no_smartshift(
    before: AppState,
    after: AppState,
    smartshift: SmartShift,
    effects: EffectsView,
)
    requires
        smartshift_committed(before, after, smartshift, effects),
        before.current() is None,
    ensures
        after == before,
        effects.write is None,
        effects.edit is None,
        effects.persist == Persist::Nothing,
        !effects.project,
{
}

/// What a write, nothing to do, and saving mean.
pub proof fn law_effects_are_what_they_are_called(route: Option<DeviceRouteView>, change: DeviceChange)
    ensures
        route matches Some(way) ==> write_to(route, change) == Some(DeviceWriteView { route: way, change }),
        route is None ==> write_to(route, change) is None,
        no_effects() == (EffectsView { write: None, edit: None, persist: Persist::Nothing, project: false }),
        save_then_reload() == (EffectsView {
            write: None,
            edit: None,
            persist: Persist::SaveThenReload,
            project: false,
        }),
{
}

/// The meaning of effects holds what they hold.
pub proof fn law_effects_mean_what_they_hold(effects: Effects)
    ensures
        effects.deep_view().persist == effects.persist,
        effects.deep_view().project == effects.project,
        effects.write is None <==> effects.deep_view().write is None,
        effects.write matches Some(write) ==> effects.deep_view().write == Some(
            DeviceWriteView { route: write.route.deep_view(), change: write.change },
        ),
        effects.edit is None <==> effects.deep_view().edit is None,
        effects.edit matches Some(edit) ==> effects.deep_view().edit == Some(
            BindingEditView { key: edit.key@, change: edit.change },
        ),
{
}

/// A setting of the application changes nothing else.
pub proof fn law_settings_change_nothing_else(state: AppState, settings: AppSettings)
    ensures
        ({
            let after = with_settings(state, settings);
            &&& after.config.app_settings == settings
            &&& after.config.devices == state.config.devices
            &&& after.config.selected_device == state.config.selected_device
            &&& after.config.schema_version == state.config.schema_version
            &&& after.device_list == state.device_list && after.current_device == state.current_device
            &&& after.dpi == state.dpi && after.dpi_data == state.dpi_data
            &&& after.smartshift_data == state.smartshift_data && after.agent_link == state.agent_link
            &&& after.button_bindings == state.button_bindings && after.gesture_bindings == state.gesture_bindings
        }),
{
}

/// A setting of a device changes what is stored for it alone.
pub proof fn law_device_setting_changes_nothing_else(
    before: AppState,
    after: AppState,
    key: Seq<char>,
    now: DeviceSettingsView,
    other: Seq<char>,
)
    requires
        after.stored(&before, key, now),
    ensures
        after.config.device(key) == now,
        other != key ==> after.config.device(other) == before.config.device(other),
        after.config.app_settings == before.config.app_settings,
        after.config.selected_device == before.config.selected_device,
        after.device_list == before.device_list && after.current_device == before.current_device,
        after.dpi == before.dpi && after.dpi_data == before.dpi_data,
        after.smartshift_data == before.smartshift_data,
        after.button_bindings == before.button_bindings && after.gesture_bindings == before.gesture_bindings,
{
}

/// A sensitivity within the range stays as it is, another one becomes the end of
/// the range next to it.
pub proof fn law_sensitivity_is_brought_into_range(sensitivity: i32)
    ensures
        MIN_THUMBWHEEL_SENSITIVITY <= clamped_sensitivity(sensitivity) <= MAX_THUMBWHEEL_SENSITIVITY,
        MIN_THUMBWHEEL_SENSITIVITY <= sensitivity <= MAX_THUMBWHEEL_SENSITIVITY ==> clamped_sensitivity(sensitivity)
            == sensitivity,
        sensitivity < MIN_THUMBWHEEL_SENSITIVITY ==> clamped_sensitivity(sensitivity) == MIN_THUMBWHEEL_SENSITIVITY,
        sensitivity > MAX_THUMBWHEEL_SENSITIVITY ==> clamped_sensitivity(sensitivity) == MAX_THUMBWHEEL_SENSITIVITY,
{
}

/// The latest events are kept, in their order, as many as there is room for.
pub proof fn law_latest_events_are_kept(events: Seq<MonitorEvent>)
    ensures
        latest(events).len() == if events.len() <= MONITOR_EVENTS_MAX {
            events.len() as int
        } else {
            MONITOR_EVENTS_MAX as int
        },
        forall|i: int|
            0 <= i < latest(events).len() ==> #[trigger] latest(events)[i] == events[events.len() - latest(events).len()
                + i],
{
}

/// A picture is looked for of every device whose model is known, online or not,
/// and of no other, in the order of the devices.
pub proof fn law_every_model_gets_a_picture(
    first: Seq<DeviceRecordView>,
    second: Seq<DeviceRecordView>,
    one: DeviceRecordView,
)
    ensures
        models_of(first + second, (first + second).len() as int) == models_of(first, first.len() as int) + models_of(
            second,
            second.len() as int,
        ),
        one.model_info matches Some(model) ==> models_of(seq![one], 1) == seq![(model, one.codename)],
        one.model_info is None ==> models_of(seq![one], 1).len() == 0,
{
    lemma_models_split(first, second, second.len() as int);
    assert(models_of(seq![one], 0) =~= Seq::<(DeviceModelInfoView, Option<Seq<char>>)>::empty());
    assert(seq![one][0] == one);
    if let Some(model) = one.model_info {
        assert(models_of(seq![one], 1) == models_of(seq![one], 0).push((model, one.codename)));
        assert(models_of(seq![one], 1) =~= seq![(model, one.codename)]);
    }
}

proof fn lemma_models_split(first: Seq<DeviceRecordView>, second: Seq<DeviceRecordView>, n: int)
    requires
        0 <= n <= second.len(),
    ensures
        models_of(first + second, first.len() + n) == models_of(first, first.len() as int) + models_of(second, n),
    decreases n,
{
    let all = first + second;
    if n > 0 {
        lemma_models_split(first, second, n - 1);
        assert(all[first.len() + n - 1] == second[n - 1]);
        assert(models_of(all, first.len() + n) =~= models_of(first, first.len() as int) + models_of(second, n));
    } else {
        lemma_models_prefix(first, second, first.len() as int);
        assert(models_of(first, first.len() as int) + models_of(second, 0) =~= models_of(first, first.len() as int));
    }
}

proof fn lemma_models_prefix(first: Seq<DeviceRecordView>, second: Seq<DeviceRecordView>, n: int)
    requires
        0 <= n <= first.len(),
    ensures
        models_of(first + second, n) == models_of(first, n),
    decreases n,
{
    if n > 0 {
        lemma_models_prefix(first, second, n - 1);
        assert((first + second)[n - 1] == first[n - 1]);
    }
}

/// Selecting a device gives what could not be read of it another try, and
/// forgets nothing else.
pub proof fn law_failed_read_gets_another_try<V>(loads: Map<Seq<char>, LoadView<V>>, key: Seq<char>, other: Seq<char>)
    ensures
        loads.dom().contains(key) && loads[key] is Failed ==> !without_failure(loads, key).dom().contains(key),
        loads.dom().contains(key) && !(loads[key] is Failed) ==> without_failure(loads, key).dom().contains(key)
            && without_failure(loads, key)[key] == loads[key],
        other != key ==> (without_failure(loads, key).dom().contains(other) <==> loads.dom().contains(other)),
        other != key && loads.dom().contains(other) ==> without_failure(loads, key)[other] == loads[other],
{
}

/// What is read of a device that is there, over the way in which it is reached,
/// is recorded, and its failures are forgotten. Other devices are not touched.
pub proof fn law_answer_is_recorded<T: Value>(
    before: LazyDeviceData<T>,
    after: LazyDeviceData<T>,
    key: Seq<char>,
    data: T,
    permanent: bool,
    other: Seq<char>,
)
    requires
        read_stored(before, after, key, Ok(data), permanent, true, true),
    ensures
        after.load(key) == LoadView::<<T as DeepView>::V>::Ready(data.deep_view()),
        !after.attempts@.dom().contains(key),
        other != key ==> after.load(other) == before.load(other) && (after.attempts@.dom().contains(other)
            <==> before.attempts@.dom().contains(other)),
{
}

/// A late answer changes nothing but that reading is over: of a device that is
/// gone nothing stays known, of one that is reached in another way what was
/// known before.
pub proof fn law_late_answer_is_not_used<T: Value>(
    before: LazyDeviceData<T>,
    after: LazyDeviceData<T>,
    key: Seq<char>,
    result: Result<T, WriteError>,
    permanent: bool,
    present: bool,
    other: Seq<char>,
)
    requires
        read_stored(before, after, key, result, permanent, false, present),
    ensures
        !present ==> after.load(key) is Unknown && !after.attempts@.dom().contains(key),
        present ==> after.load(key) == if before.load(key) is Loading {
            LoadView::Unknown
        } else {
            before.load(key)
        },
        present ==> after.attempts == before.attempts,
        other != key ==> after.load(other) == before.load(other),
{
}

/// A read that failed for good is not made again. Another one is made again
/// until as many have failed in a row as the budget allows.
pub proof fn law_failed_read_is_made_again_within_the_budget<T: Value>(
    before: LazyDeviceData<T>,
    after: LazyDeviceData<T>,
    key: Seq<char>,
    error: WriteError,
    permanent: bool,
    other: Seq<char>,
)
    requires
        read_stored(before, after, key, Err::<T, WriteError>(error), permanent, true, true),
    ensures
        permanent ==> after.load(key) == LoadView::<<T as DeepView>::V>::Unsupported(error.message@),
        permanent ==> after.attempts == before.attempts,
        !permanent && !before.attempts@.dom().contains(key) ==> after.load(key) is Unknown && after.attempts@[key] == 1,
        !permanent && before.attempts@.dom().contains(key) && before.attempts@[key] + 1 < crate::load::READ_BUDGET
            ==> after.load(key) is Unknown && after.attempts@[key] == before.attempts@[key] + 1,
        !permanent && before.attempts@.dom().contains(key) && before.attempts@[key] + 1 >= crate::load::READ_BUDGET
            ==> after.load(key) == LoadView::<<T as DeepView>::V>::Failed(error.message@),
        other != key ==> after.load(other) == before.load(other),
{
}

/// An answer is of a device exactly if the device is reached over its route.
pub proof fn law_answer_is_of_the_route(list: Seq<DeviceRecordView>, key: Seq<char>, route: DeviceRouteView)
    ensures
        is_route_of(list, key, route) <==> exists|i: int|
            0 <= i < list.len() && (#[trigger] list[i]).config_key == key && list[i].route == Some(route),
        has_record(list, key) <==> exists|i: int| 0 <= i < list.len() && (#[trigger] list[i]).config_key == key,
{
}

/// A read back is owed after a write to a device that can be reached; where none
/// is owed, none is taken, and what is owed to other devices stays.
pub proof fn law_only_what_is_owed_is_taken(
    before: AppState,
    after: AppState,
    taken: Option<(Seq<char>, DeviceRouteView)>,
    other: Seq<char>,
)
    requires
        confirm_taken(before, after, taken),
    ensures
        taken is Some <==> before.current() is Some && before.current()->0.route is Some
            && before.smartshift_pending_confirm.deep_view().contains(before.current()->0.config_key),
        taken matches Some(read) ==> read.0 == before.current()->0.config_key && Some(read.1)
            == before.current()->0.route,
        before.selected() != Some(other) ==> (after.smartshift_pending_confirm.deep_view().contains(other)
            <==> before.smartshift_pending_confirm.deep_view().contains(other)),
        before.current() is Some && before.current()->0.route is None ==> after == before,
        after.device_list == before.device_list && after.smartshift_data == before.smartshift_data && after.config
            == before.config,
{
}

/// As long as no DPI was read 1600 is shown, and 200 events of the monitor are
/// kept.
pub proof fn law_limits_of_what_is_shown()
    ensures
        DEFAULT_DPI == 1600,
        MONITOR_EVENTS_MAX == 200,
{
}

/// A device that was shown and is missing from a new snapshot is counted as
/// missing and stays shown as it was, but not a third time in a row. One that is
/// in the snapshot is not counted.
pub proof fn law_missing_device_is_shown_twice(
    before: AppState,
    after: AppState,
    new: Seq<DeviceRecordView>,
    force: bool,
    taken: bool,
    effects: EffectsView,
    p: int,
)
    requires
        refresh_outcome(before, after, new, force, taken, effects),
        crate::records::keys_differ(before.device_list.deep_view()),
        0 <= p < before.device_list@.len(),
    ensures
        ({
            let was = before.device_list@[p].deep_view();
            let (counts, now) = (before.inventory_misses@, after.inventory_misses@);
            let missed = if counts.dom().contains(was.config_key) {
                counts[was.config_key] as int
            } else {
                0
            };
            let missing = forall|j: int| 0 <= j < new.len() ==> (#[trigger] new[j]).config_key != was.config_key;
            let shown = exists|k: int|
                0 <= k < after.device_list@.len() && {
                    let one = #[trigger] after.device_list@[k].deep_view();
                    &&& one.config_key == was.config_key
                    &&& one.online == was.online && one.route == was.route && one.capabilities == was.capabilities
                };
            let gone = forall|k: int|
                0 <= k < after.device_list@.len() ==> (#[trigger] after.device_list@[k]).config_key@ != was.config_key;
            &&& missing && missed < 2 ==> shown && now.dom().contains(was.config_key) && now[was.config_key] == missed + 1
            &&& missing && missed >= 2 ==> gone && !now.dom().contains(was.config_key)
            &&& !missing ==> !now.dom().contains(was.config_key)
        }),
{
    let list = choose|list: Seq<DeviceRecordView>|
        #![trigger refreshed(before, after, new, list, taken)]
        refreshed(before, after, new, list, taken) && effects == refresh_effects(before, list, taken) && taken == (force
            || !looks_the_same(list, before.device_list.deep_view()));
    let (all, out) = (before.device_list.deep_view(), after.device_list.deep_view());
    let was = all[p];
    assert(was == before.device_list@[p].deep_view());
    let key = was.config_key;
    crate::records::law_misses_are_counted(all, new, before.inventory_misses@, list, p);
    assert(list.len() == out.len());
    assert forall|k: int| 0 <= k < list.len() implies (#[trigger] list[k]).config_key == out[k].config_key
        && list[k].online == out[k].online && list[k].route == out[k].route && list[k].capabilities
        == out[k].capabilities by {
        assert(out[k] == after.device_list@[k].deep_view());
    }
    if list.contains(was) {
        let k = choose|k: int| 0 <= k < list.len() && list[k] == was;
        assert(out[k] == after.device_list@[k].deep_view());
        assert(list[k].config_key == out[k].config_key);
    }
    if forall|k: int| 0 <= k < list.len() ==> (#[trigger] list[k]).config_key != key {
        assert forall|k: int| 0 <= k < after.device_list@.len() implies (#[trigger] after.device_list@[k]).config_key@
            != key by {
            assert(out[k] == after.device_list@[k].deep_view());
            assert(list[k].config_key == out[k].config_key);
        }
    }
}

} // verus!
