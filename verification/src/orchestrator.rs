//! The agent's devices: which are known, which is selected, and what has to be
//! written and published when the inventory or the settings change.

use vstd::prelude::*;
use crate::config::{Config, Lighting, ScrollResolution, SmartShift};
use crate::device::{
    Capabilities, DeviceInventory, DeviceInventoryView, DeviceRoute, DeviceRouteView, PairedDevice, PairedDeviceView,
    ReceiverInfo, ReceiverInfoView,
};
use crate::dpi::{DpiCapabilities, DpiCycleState, DpiCycleStateView, DpiCycles};
use crate::seqs::{indices, lemma_indices_step, lemma_push_contains};
use crate::sort::{is_stable_sort, rank_is_before, sort_ranked, HasRank, Rank, Ranked};
use crate::table::Table;
use crate::value::{list_contains, Value};

verus! {

/// A device of a snapshot, with what its route and its identity resolve to.
#[derive(Debug, PartialEq, Eq)]
pub struct SeenDevice {
    pub device: PairedDevice,
    /// How it is reached, where it can be.
    pub route: Option<DeviceRoute>,
    /// The identity that stays the same across snapshots and orders the devices.
    pub stable_id: String,
    /// The key of its settings, derived from its identity.
    pub config_key: String,
    /// The key of its model.
    pub model_key: String,
}

/// The meaning of a [`SeenDevice`].
pub struct SeenDeviceView {
    pub device: PairedDeviceView,
    pub route: Option<DeviceRouteView>,
    pub stable_id: Seq<char>,
    pub config_key: Seq<char>,
    pub model_key: Seq<char>,
}

impl DeepView for SeenDevice {
    type V = SeenDeviceView;

    open spec fn deep_view(&self) -> SeenDeviceView {
        SeenDeviceView {
            device: self.device.deep_view(),
            route: self.route.deep_view(),
            stable_id: self.stable_id.deep_view(),
            config_key: self.config_key.deep_view(),
            model_key: self.model_key.deep_view(),
        }
    }
}

impl Value for SeenDevice {
    fn same(&self, other: &Self) -> (r: bool) {
        self.device.same(&other.device)
            && self.route.same(&other.route)
            && self.stable_id.same(&other.stable_id)
            && self.config_key.same(&other.config_key)
            && self.model_key.same(&other.model_key)
    }

    fn copy(&self) -> (r: Self) {
        SeenDevice {
            device: self.device.copy(),
            route: self.route.copy(),
            stable_id: self.stable_id.copy(),
            config_key: self.config_key.copy(),
            model_key: self.model_key.copy(),
        }
    }
}

/// A receiver of a snapshot with its devices.
#[derive(Debug, PartialEq, Eq)]
pub struct SeenReceiver {
    pub receiver: ReceiverInfo,
    pub devices: Vec<SeenDevice>,
}

/// The meaning of a [`SeenReceiver`].
pub struct SeenReceiverView {
    pub receiver: ReceiverInfoView,
    pub devices: Seq<SeenDeviceView>,
}

impl DeepView for SeenReceiver {
    type V = SeenReceiverView;

    open spec fn deep_view(&self) -> SeenReceiverView {
        SeenReceiverView {
            receiver: self.receiver.deep_view(),
            devices: self.devices.deep_view(),
        }
    }
}

impl Value for SeenReceiver {
    fn same(&self, other: &Self) -> (r: bool) {
        self.receiver.same(&other.receiver)
            && self.devices.same(&other.devices)
    }

    fn copy(&self) -> (r: Self) {
        SeenReceiver {
            receiver: self.receiver.copy(),
            devices: self.devices.copy(),
        }
    }
}

/// What the agent keeps of one device.
#[derive(Debug, PartialEq, Eq)]
pub struct AgentDevice {
    pub config_key: String,
    pub model_key: String,
    pub stable_id: String,
    pub route: Option<DeviceRoute>,
    pub capabilities: Option<Capabilities>,
    /// A device that comes online may have lost what was written to it.
    pub online: bool,
}

/// The meaning of a [`AgentDevice`].
pub struct AgentDeviceView {
    pub config_key: Seq<char>,
    pub model_key: Seq<char>,
    pub stable_id: Seq<char>,
    pub route: Option<DeviceRouteView>,
    pub capabilities: Option<Capabilities>,
    pub online: bool,
}

impl DeepView for AgentDevice {
    type V = AgentDeviceView;

    open spec fn deep_view(&self) -> AgentDeviceView {
        AgentDeviceView {
            config_key: self.config_key.deep_view(),
            model_key: self.model_key.deep_view(),
            stable_id: self.stable_id.deep_view(),
            route: self.route.deep_view(),
            capabilities: self.capabilities.deep_view(),
            online: self.online.deep_view(),
        }
    }
}

impl Value for AgentDevice {
    fn same(&self, other: &Self) -> (r: bool) {
        self.config_key.same(&other.config_key)
            && self.model_key.same(&other.model_key)
            && self.stable_id.same(&other.stable_id)
            && self.route.same(&other.route)
            && self.capabilities.same(&other.capabilities)
            && self.online.same(&other.online)
    }

    fn copy(&self) -> (r: Self) {
        AgentDevice {
            config_key: self.config_key.copy(),
            model_key: self.model_key.copy(),
            stable_id: self.stable_id.copy(),
            route: self.route.copy(),
            capabilities: self.capabilities.copy(),
            online: self.online.copy(),
        }
    }
}

impl HasRank for AgentDeviceView {
    open spec fn rank(&self) -> Rank {
        (self.stable_id, self.model_key)
    }
}

impl Ranked<AgentDeviceView> for AgentDevice {
    fn before(&self, other: &Self) -> (r: bool) {
        rank_is_before(
            self.stable_id.as_str(),
            self.model_key.as_str(),
            other.stable_id.as_str(),
            other.model_key.as_str(),
        )
    }
}

impl AgentDeviceView {
    /// It is online and can be written to.
    pub open spec fn reachable(self) -> bool {
        self.online && self.route is Some
    }
}

/// What the agent keeps of a device of a snapshot, once the device has told its
/// model.
pub open spec fn kept(seen: SeenDeviceView) -> AgentDeviceView {
    AgentDeviceView {
        config_key: seen.config_key,
        model_key: seen.model_key,
        stable_id: seen.stable_id,
        route: seen.route,
        capabilities: seen.device.capabilities,
        online: seen.device.online,
    }
}

/// The devices of one receiver that have told their model, in order.
pub open spec fn kept_of(devices: Seq<SeenDeviceView>) -> Seq<AgentDeviceView>
    decreases devices.len(),
{
    if devices.len() == 0 {
        Seq::empty()
    } else {
        let before = kept_of(devices.drop_last());
        if devices.last().device.model_info is Some {
            before.push(kept(devices.last()))
        } else {
            before
        }
    }
}

/// The devices of a snapshot that have told their model, in order.
pub open spec fn kept_of_all(seen: Seq<SeenReceiverView>) -> Seq<AgentDeviceView>
    decreases seen.len(),
{
    if seen.len() == 0 {
        Seq::empty()
    } else {
        kept_of_all(seen.drop_last()) + kept_of(seen.last().devices)
    }
}

/// The agent's device list for a snapshot: the devices that have told their
/// model, in the canonical order.
pub fn build_devices(seen: &Vec<SeenReceiver>) -> (r: Vec<AgentDevice>)
    ensures
        is_stable_sort(kept_of_all(seen.deep_view()), r.deep_view()),
{
    let ghost all = seen.deep_view();
    let mut devices: Vec<AgentDevice> = Vec::new();
    let mut i: usize = 0;
    assert(devices.deep_view() =~= kept_of_all(all.take(0)));
    while i < seen.len()
        invariant
            i <= seen@.len(),
            all == seen.deep_view(),
            devices.deep_view() == kept_of_all(all.take(i as int)),
        decreases seen@.len() - i,
    {
        let ghost before = devices.deep_view();
        let receiver: &SeenReceiver = &seen[i];
        let ghost found = receiver.devices.deep_view();
        let mut j: usize = 0;
        assert(kept_of(found.take(0)) =~= Seq::<AgentDeviceView>::empty());
        assert(devices.deep_view() =~= before + kept_of(found.take(0)));
        while j < receiver.devices.len()
            invariant
                j <= receiver.devices@.len(),
                found == receiver.devices.deep_view(),
                devices.deep_view() == before + kept_of(found.take(j as int)),
            decreases receiver.devices@.len() - j,
        {
            let ghost so_far = devices.deep_view();
            let dev: &SeenDevice = &receiver.devices[j];
            if dev.device.model_info.is_some() {
                devices.push(
                    AgentDevice {
                        config_key: dev.config_key.copy(),
                        model_key: dev.model_key.copy(),
                        stable_id: dev.stable_id.copy(),
                        route: dev.route.copy(),
                        capabilities: dev.device.capabilities.copy(),
                        online: dev.device.online,
                    },
                );
                assert(devices.deep_view() =~= so_far.push(kept(dev.deep_view())));
            }
            proof {
                assert(found.take(j + 1).drop_last() =~= found.take(j as int));
                assert(found.take(j + 1).last() == dev.deep_view());
                let old_part = kept_of(found.take(j as int));
                assert(before + old_part.push(kept(dev.deep_view())) =~= (before + old_part).push(
                    kept(dev.deep_view()),
                ));
            }
            j += 1;
        }
        proof {
            assert(found.take(receiver.devices@.len() as int) =~= found);
            assert(all.take(i + 1).drop_last() =~= all.take(i as int));
            assert(all.take(i + 1).last() == receiver.deep_view());
        }
        i += 1;
    }
    assert(all.take(seen@.len() as int) =~= all);
    sort_ranked(devices)
}

/// `prev[i]` is the first device with the identity `id`.
pub open spec fn is_first_with_id(prev: Seq<AgentDeviceView>, id: Seq<char>, i: int) -> bool {
    &&& 0 <= i < prev.len()
    &&& prev[i].stable_id == id
    &&& forall|j: int| 0 <= j < i ==> (#[trigger] prev[j]).stable_id != id
}

/// Some device has the identity `id`.
pub open spec fn knows_id(prev: Seq<AgentDeviceView>, id: Seq<char>) -> bool {
    exists|i: int| 0 <= i < prev.len() && (#[trigger] prev[i]).stable_id == id
}

/// The device with the identity `id` was known, and online.
pub open spec fn was_online(prev: Seq<AgentDeviceView>, id: Seq<char>) -> bool {
    exists|i: int| #[trigger] is_first_with_id(prev, id, i) && prev[i].online
}

/// The volatile settings of `dev` have to be written again: it can be written
/// to, and it is new, or has just come online, or all are written again.
pub open spec fn needs_reapply(prev: Seq<AgentDeviceView>, dev: AgentDeviceView, reapply_all: bool) -> bool {
    dev.reachable() && (reapply_all || !was_online(prev, dev.stable_id))
}

pub open spec fn reapply_needed(
    prev: Seq<AgentDeviceView>,
    next: Seq<AgentDeviceView>,
    reapply_all: bool,
) -> spec_fn(usize) -> bool {
    |i: usize| needs_reapply(prev, next[i as int], reapply_all)
}

/// The places in `next` of the devices whose volatile settings have to be
/// written again, in order.
pub open spec fn reapply_places(
    prev: Seq<AgentDeviceView>,
    next: Seq<AgentDeviceView>,
    reapply_all: bool,
) -> Seq<usize> {
    indices(next.len()).filter(reapply_needed(prev, next, reapply_all))
}

/// The first device with the identity `id`.
fn find_id(prev: &Vec<AgentDevice>, id: &String) -> (r: Option<usize>)
    ensures
        match r {
            Some(i) => is_first_with_id(prev.deep_view(), id@, i as int) && knows_id(prev.deep_view(), id@),
            None => !knows_id(prev.deep_view(), id@),
        },
{
    let mut i: usize = 0;
    while i < prev.len()
        invariant
            i <= prev@.len(),
            forall|j: int| 0 <= j < i ==> (#[trigger] prev.deep_view()[j]).stable_id != id@,
        decreases prev@.len() - i,
    {
        if prev[i].stable_id.same(id) {
            assert(prev.deep_view()[i as int].stable_id == id@);
            return Some(i);
        }
        i += 1;
    }
    None
}

/// Whether the volatile settings of `dev` have to be written again.
fn is_due(prev: &Vec<AgentDevice>, dev: &AgentDevice, reapply_all: bool) -> (r: bool)
    ensures
        r == needs_reapply(prev.deep_view(), dev.deep_view(), reapply_all),
{
    if !dev.online || dev.route.is_none() {
        return false;
    }
    if reapply_all {
        return true;
    }
    match find_id(prev, &dev.stable_id) {
        Some(i) => {
            proof {
                let (all, id) = (prev.deep_view(), dev.stable_id@);
                assert(all[i as int].online == prev@[i as int].online);
                if was_online(all, id) {
                    let k = choose|k: int| #[trigger] is_first_with_id(all, id, k) && all[k].online;
                    assert(k == i) by {
                        if k < i {
                            assert(all[k].stable_id != id);
                        }
                        if i < k {
                            assert(all[i as int].stable_id != id);
                        }
                    }
                }
            }
            !prev[i].online
        },
        None => {
            proof {
                if was_online(prev.deep_view(), dev.stable_id@) {
                    let k = choose|k: int| #[trigger] is_first_with_id(prev.deep_view(), dev.stable_id@, k)
                        && prev.deep_view()[k].online;
                    assert(prev.deep_view()[k].stable_id == dev.stable_id@);
                }
            }
            true
        },
    }
}

/// The places in `next` of the devices whose volatile settings have to be
/// written again: a device is new, or has come back online, or all are written
/// again after a system wake. A device that is offline is never among them.
pub fn reapply_targets(prev: &Vec<AgentDevice>, next: &Vec<AgentDevice>, reapply_all: bool) -> (r: Vec<usize>)
    ensures
        r@ == reapply_places(prev.deep_view(), next.deep_view(), reapply_all),
{
    let ghost keep = reapply_needed(prev.deep_view(), next.deep_view(), reapply_all);
    let mut out: Vec<usize> = Vec::new();
    let mut i: usize = 0;
    proof {
        crate::seqs::lemma_indices_none(keep);
    }
    while i < next.len()
        invariant
            i <= next@.len(),
            keep == reapply_needed(prev.deep_view(), next.deep_view(), reapply_all),
            out@ == indices(i as nat).filter(keep),
        decreases next@.len() - i,
    {
        proof {
            lemma_indices_step(i as nat, keep);
            assert(next.deep_view()[i as int] == next@[i as int].deep_view());
        }
        if is_due(prev, &next[i], reapply_all) {
            out.push(i);
        }
        i += 1;
    }
    out
}

/// `dev` was first seen at the last refresh and is due its confirming write now.
pub open spec fn needs_confirm(followup: Seq<Seq<char>>, dev: AgentDeviceView) -> bool {
    dev.reachable() && followup.contains(dev.config_key)
}

pub open spec fn confirm_needed(
    prev: Seq<AgentDeviceView>,
    next: Seq<AgentDeviceView>,
    followup: Seq<Seq<char>>,
    reapply_all: bool,
) -> spec_fn(usize) -> bool {
    |i: usize|
        needs_confirm(followup, next[i as int]) && !needs_reapply(prev, next[i as int], reapply_all)
}

/// All places written at a refresh: those due for themselves, then those due a
/// confirming write only.
pub open spec fn planned_places(
    prev: Seq<AgentDeviceView>,
    next: Seq<AgentDeviceView>,
    followup: Seq<Seq<char>>,
    reapply_all: bool,
) -> Seq<usize> {
    reapply_places(prev, next, reapply_all) + indices(next.len()).filter(
        confirm_needed(prev, next, followup, reapply_all),
    )
}

/// `key` is the key of a device that is written now for the first time.
pub open spec fn is_first_sighting(
    prev: Seq<AgentDeviceView>,
    next: Seq<AgentDeviceView>,
    reapply_all: bool,
    key: Seq<char>,
) -> bool {
    exists|i: int|
        0 <= i < next.len() && (#[trigger] next[i]).config_key == key && needs_reapply(prev, next[i], reapply_all)
            && !knows_id(prev, next[i].stable_id)
}

/// `keys` lists the keys of the devices that are written now for the first
/// time, each once.
pub open spec fn lists_first_sightings(
    prev: Seq<AgentDeviceView>,
    next: Seq<AgentDeviceView>,
    reapply_all: bool,
    keys: Seq<Seq<char>>,
) -> bool {
    &&& keys.no_duplicates()
    &&& forall|key: Seq<char>| #[trigger] keys.contains(key) <==> is_first_sighting(prev, next, reapply_all, key)
}

/// Plans the writes of one refresh: the places of the devices to write to, and
/// the keys of the devices due one confirming write at the next refresh.
pub fn plan_reapply(
    prev: &Vec<AgentDevice>,
    next: &Vec<AgentDevice>,
    followup: &Vec<String>,
    reapply_all: bool,
) -> (r: (Vec<usize>, Vec<String>))
    ensures
        r.0@ == planned_places(prev.deep_view(), next.deep_view(), followup.deep_view(), reapply_all),
        lists_first_sightings(prev.deep_view(), next.deep_view(), reapply_all, r.1.deep_view()),
{
    let ghost (pv, nv, fv) = (prev.deep_view(), next.deep_view(), followup.deep_view());
    let mut targets = reapply_targets(prev, next, reapply_all);
    let ghost first = targets@;
    let ghost keep = confirm_needed(pv, nv, fv, reapply_all);
    let mut next_followup: Vec<String> = Vec::new();
    let mut i: usize = 0;
    proof {
        crate::seqs::lemma_indices_none(keep);
        assert(targets@ =~= first + Seq::<usize>::empty());
    }
    while i < next.len()
        invariant
            i <= next@.len(),
            pv == prev.deep_view(),
            nv == next.deep_view(),
            fv == followup.deep_view(),
            keep == confirm_needed(pv, nv, fv, reapply_all),
            targets@ == first + indices(i as nat).filter(keep),
            next_followup.deep_view().no_duplicates(),
            forall|key: Seq<char>| #[trigger] next_followup.deep_view().contains(key) <==> is_first_sighting(
                pv,
                nv.take(i as int),
                reapply_all,
                key,
            ),
        decreases next@.len() - i,
    {
        let dev: &AgentDevice = &next[i];
        let ghost d = dev.deep_view();
        let ghost before = next_followup.deep_view();
        let due = is_due(prev, dev, reapply_all);
        proof {
            lemma_indices_step(i as nat, keep);
            assert(nv[i as int] == d);
            assert(first + indices(i as nat).filter(keep).push(i) =~= (first + indices(i as nat).filter(keep)).push(
                i,
            ));
        }
        if due {
            if find_id(prev, &dev.stable_id).is_none() && !list_contains(&next_followup, &dev.config_key) {
                next_followup.push(dev.config_key.copy());
                assert(next_followup.deep_view() =~= before.push(d.config_key));
            }
        } else if dev.online && dev.route.is_some() && list_contains(followup, &dev.config_key) {
            targets.push(i);
        }
        proof {
            let now = next_followup.deep_view();
            let fresh = due && !knows_id(pv, d.stable_id);
            let (a, b) = (nv.take(i as int), nv.take(i + 1));
            assert forall|key: Seq<char>| #[trigger] now.contains(key) <==> before.contains(key) || (fresh && key
                == d.config_key) by {
                lemma_push_contains(before, d.config_key);
            }
            assert forall|key: Seq<char>| #[trigger] is_first_sighting(pv, b, reapply_all, key) <==> is_first_sighting(
                pv,
                a,
                reapply_all,
                key,
            ) || (fresh && key == d.config_key) by {
                if is_first_sighting(pv, a, reapply_all, key) {
                    let k = choose|k: int|
                        0 <= k < a.len() && (#[trigger] a[k]).config_key == key && needs_reapply(pv, a[k], reapply_all)
                            && !knows_id(pv, a[k].stable_id);
                    assert(b[k] == a[k]);
                }
                if is_first_sighting(pv, b, reapply_all, key) {
                    let k = choose|k: int|
                        0 <= k < b.len() && (#[trigger] b[k]).config_key == key && needs_reapply(pv, b[k], reapply_all)
                            && !knows_id(pv, b[k].stable_id);
                    if k < i {
                        assert(a[k] == b[k]);
                    }
                }
                if fresh && key == d.config_key {
                    assert(b[i as int] == d);
                }
            }
        }
        i += 1;
    }
    assert(nv.take(next@.len() as int) =~= nv);
    (targets, next_followup)
}

/// A setting to write to a device.
#[derive(Clone, Copy, Debug, PartialEq, Eq, Structural)]
pub enum DeviceChange {
    /// The wheel mode; `None` leaves that part of it alone.
    WheelMode { resolution: Option<ScrollResolution>, inverted: Option<bool> },
    Lighting(Lighting),
    Dpi(u32),
    SmartShift(SmartShift),
}

impl DeepView for DeviceChange {
    type V = DeviceChange;

    open spec fn deep_view(&self) -> DeviceChange {
        *self
    }
}

impl Value for DeviceChange {
    fn same(&self, other: &Self) -> (r: bool) {
        *self == *other
    }

    fn copy(&self) -> (r: Self) {
        *self
    }
}

/// A write to a device.
#[derive(Debug, PartialEq, Eq)]
pub struct DeviceWrite {
    pub route: DeviceRoute,
    pub change: DeviceChange,
}

/// The meaning of a [`DeviceWrite`].
pub struct DeviceWriteView {
    pub route: DeviceRouteView,
    pub change: DeviceChange,
}

impl DeepView for DeviceWrite {
    type V = DeviceWriteView;

    open spec fn deep_view(&self) -> DeviceWriteView {
        DeviceWriteView {
            route: self.route.deep_view(),
            change: self.change.deep_view(),
        }
    }
}

impl Value for DeviceWrite {
    fn same(&self, other: &Self) -> (r: bool) {
        self.route.same(&other.route)
            && self.change.same(&other.change)
    }

    fn copy(&self) -> (r: Self) {
        DeviceWrite {
            route: self.route.copy(),
            change: self.change.copy(),
        }
    }
}

/// A device whose inputs are to be captured, and the application that is in front.
#[derive(Debug, PartialEq, Eq)]
pub struct PlanRequest {
    pub config_key: String,
    pub route: DeviceRoute,
    pub app: Option<String>,
}

/// The meaning of a [`PlanRequest`].
pub struct PlanRequestView {
    pub config_key: Seq<char>,
    pub route: DeviceRouteView,
    pub app: Option<Seq<char>>,
}

impl DeepView for PlanRequest {
    type V = PlanRequestView;

    open spec fn deep_view(&self) -> PlanRequestView {
        PlanRequestView {
            config_key: self.config_key.deep_view(),
            route: self.route.deep_view(),
            app: self.app.deep_view(),
        }
    }
}

impl Value for PlanRequest {
    fn same(&self, other: &Self) -> (r: bool) {
        self.config_key.same(&other.config_key)
            && self.route.same(&other.route)
            && self.app.same(&other.app)
    }

    fn copy(&self) -> (r: Self) {
        PlanRequest {
            config_key: self.config_key.copy(),
            route: self.route.copy(),
            app: self.app.copy(),
        }
    }
}

/// Whose bindings the OS hook works with: the bindings of `key`, with what `app` overrides.
#[derive(Debug, PartialEq, Eq)]
pub struct HookProjection {
    pub key: Option<String>,
    pub app: Option<String>,
}

/// The meaning of a [`HookProjection`].
pub struct HookProjectionView {
    pub key: Option<Seq<char>>,
    pub app: Option<Seq<char>>,
}

impl DeepView for HookProjection {
    type V = HookProjectionView;

    open spec fn deep_view(&self) -> HookProjectionView {
        HookProjectionView {
            key: self.key.deep_view(),
            app: self.app.deep_view(),
        }
    }
}

impl Value for HookProjection {
    fn same(&self, other: &Self) -> (r: bool) {
        self.key.same(&other.key)
            && self.app.same(&other.app)
    }

    fn copy(&self) -> (r: Self) {
        HookProjection {
            key: self.key.copy(),
            app: self.app.copy(),
        }
    }
}

/// The maps that the OS hook works with.
#[derive(Debug, PartialEq, Eq)]
pub enum HookMapsPlan {
    /// No bindings: every event passes through.
    Empty,
    Project(HookProjection),
}

/// The meaning of a [`HookMapsPlan`].
pub enum HookMapsPlanView {
    Empty,
    Project(HookProjectionView),
}

impl DeepView for HookMapsPlan {
    type V = HookMapsPlanView;

    open spec fn deep_view(&self) -> HookMapsPlanView {
        match self {
            HookMapsPlan::Empty => HookMapsPlanView::Empty,
            HookMapsPlan::Project(of) => HookMapsPlanView::Project(of.deep_view()),
        }
    }
}

/// What is published to the threads that work with the devices.
#[derive(Debug, PartialEq, Eq)]
pub struct Publication {
    /// The new maps of the OS hook; `None` leaves them as they are.
    pub hook_maps: Option<HookMapsPlan>,
    /// The device whose gesture bindings are in force; `None` leaves them as
    /// they are.
    pub gestures: Option<Option<String>>,
    pub capture: Vec<PlanRequest>,
}

/// The meaning of a [`Publication`].
pub struct PublicationView {
    pub hook_maps: Option<HookMapsPlanView>,
    pub gestures: Option<Option<Seq<char>>>,
    pub capture: Seq<PlanRequestView>,
}

impl DeepView for Publication {
    type V = PublicationView;

    open spec fn deep_view(&self) -> PublicationView {
        PublicationView {
            hook_maps: self.hook_maps.deep_view(),
            gestures: self.gestures.deep_view(),
            capture: self.capture.deep_view(),
        }
    }
}

/// What an inventory refresh or a reload calls for.
#[derive(Debug, PartialEq, Eq)]
pub struct Outcome {
    pub writes: Vec<DeviceWrite>,
    pub publication: Publication,
}

/// The latest snapshot, where there is one.
pub enum InventoryState {
    /// No enumeration has been completed yet.
    Pending,
    /// An empty snapshot is one of no devices.
    Ready(Vec<DeviceInventory>),
    /// Enumeration never worked.
    Unavailable,
}

/// Where enumeration stands.
#[derive(Clone, Copy, Debug, PartialEq, Eq, Structural)]
pub enum InventoryHealth {
    Scanning,
    Ready,
    Unavailable,
}

/// The place of the device to work with: the first one with the saved key, or
/// the first of all.
pub open spec fn picked(devices: Seq<AgentDeviceView>, saved: Option<Seq<char>>) -> int {
    match saved {
        Some(key) => if has_key(devices, key) {
            first_with_key(devices, key)
        } else {
            0
        },
        None => 0,
    }
}

/// `devices[i]` is the first device with the key `key`.
pub open spec fn is_first_with_key(devices: Seq<AgentDeviceView>, key: Seq<char>, i: int) -> bool {
    &&& 0 <= i < devices.len()
    &&& devices[i].config_key == key
    &&& forall|j: int| 0 <= j < i ==> (#[trigger] devices[j]).config_key != key
}

/// Some device has the key `key`.
pub open spec fn has_key(devices: Seq<AgentDeviceView>, key: Seq<char>) -> bool {
    exists|i: int| 0 <= i < devices.len() && (#[trigger] devices[i]).config_key == key
}

/// The place of the first device with the key `key`, where there is one.
pub open spec fn first_with_key(devices: Seq<AgentDeviceView>, key: Seq<char>) -> int {
    choose|i: int| is_first_with_key(devices, key, i)
}

proof fn lemma_picked(devices: Seq<AgentDeviceView>, key: Seq<char>, i: int)
    requires
        is_first_with_key(devices, key, i),
    ensures
        picked(devices, Some(key)) == i,
{
    let k = first_with_key(devices, key);
    assert(is_first_with_key(devices, key, k));
    if k < i {
        assert(devices[k].config_key != key);
    } else if i < k {
        assert(devices[i].config_key != key);
    }
}

/// The place of the device to work with.
pub fn pick_current(devices: &Vec<AgentDevice>, saved: &Option<String>) -> (r: usize)
    ensures
        r == picked(devices.deep_view(), saved.deep_view()),
{
    let key: &String = match saved {
        Some(key) => key,
        None => {
            return 0;
        },
    };
    let ghost all = devices.deep_view();
    let mut i: usize = 0;
    while i < devices.len()
        invariant
            i <= devices@.len(),
            all == devices.deep_view(),
            saved.deep_view() == Some(key@),
            forall|j: int| 0 <= j < i ==> (#[trigger] all[j]).config_key != key@,
        decreases devices@.len() - i,
    {
        if devices[i].config_key.same(key) {
            proof {
                assert(all[i as int].config_key == key@);
                lemma_picked(all, key@, i as int);
            }
            return i;
        }
        i += 1;
    }
    0
}

/// The wheel settings that hold for a device; `None` leaves a part alone.
pub open spec fn wheel_mode(config: &Config, dev: AgentDeviceView) -> (Option<ScrollResolution>, Option<bool>) {
    match dev.capabilities {
        None => (None, None),
        Some(can) => (
            if can.hires_wheel {
                config.device(dev.config_key).scroll_resolution
            } else {
                None
            },
            if can.scroll_inversion {
                Some(config.device(dev.config_key).invert_scroll)
            } else {
                None
            },
        ),
    }
}

/// The wheel settings that hold for `dev`: each part only where the device can
/// do it.
pub fn configured_wheel_mode(config: &Config, dev: &AgentDevice) -> (r: (Option<ScrollResolution>, Option<bool>))
    ensures
        r == wheel_mode(config, dev.deep_view()),
{
    match dev.capabilities {
        None => (None, None),
        Some(can) => {
            let resolution = if can.hires_wheel {
                config.scroll_resolution(dev.config_key.as_str())
            } else {
                None
            };
            let inverted = if can.scroll_inversion {
                Some(config.invert_scroll(dev.config_key.as_str()))
            } else {
                None
            };
            (resolution, inverted)
        },
    }
}

/// The write of the wheel settings of `dev`, where there is anything to write.
pub open spec fn wheel_writes(config: &Config, dev: AgentDeviceView) -> Seq<DeviceWriteView> {
    let (resolution, inverted) = wheel_mode(config, dev);
    match dev.route {
        Some(route) => if resolution is Some || inverted is Some {
            seq![DeviceWriteView { route, change: DeviceChange::WheelMode { resolution, inverted } }]
        } else {
            Seq::empty()
        },
        None => Seq::empty(),
    }
}

/// At most one write.
pub open spec fn write_if(route: DeviceRouteView, change: Option<DeviceChange>) -> Seq<DeviceWriteView> {
    match change {
        Some(change) => seq![DeviceWriteView { route, change }],
        None => Seq::empty(),
    }
}

/// All that has to be written to `dev` after it lost power: the wheel settings,
/// the lighting if it is on, the DPI and SmartShift, each where it is set. A
/// device that is not managed is left alone.
pub open spec fn volatile_writes(config: &Config, dev: AgentDeviceView) -> Seq<DeviceWriteView> {
    let own = config.device(dev.config_key);
    match dev.route {
        Some(route) => if own.enabled {
            wheel_writes(config, dev) + write_if(
                route,
                match own.lighting {
                    Some(lighting) => if lighting.enabled {
                        Some(DeviceChange::Lighting(lighting))
                    } else {
                        None
                    },
                    None => None,
                },
            ) + write_if(
                route,
                match own.dpi {
                    Some(dpi) => Some(DeviceChange::Dpi(dpi)),
                    None => None,
                },
            ) + write_if(
                route,
                match own.smartshift {
                    Some(smartshift) => Some(DeviceChange::SmartShift(smartshift)),
                    None => None,
                },
            )
        } else {
            Seq::empty()
        },
        None => Seq::empty(),
    }
}

/// The writes to all devices at `places`, in order.
pub open spec fn writes_at(config: &Config, devices: Seq<AgentDeviceView>, places: Seq<usize>) -> Seq<DeviceWriteView>
    decreases places.len(),
{
    if places.len() == 0 {
        Seq::empty()
    } else {
        writes_at(config, devices, places.drop_last()) + volatile_writes(config, devices[places.last() as int])
    }
}

/// The wheel settings of all devices that can be written to, in order.
pub open spec fn wheel_writes_of(config: &Config, devices: Seq<AgentDeviceView>) -> Seq<DeviceWriteView>
    decreases devices.len(),
{
    if devices.len() == 0 {
        Seq::empty()
    } else {
        let before = wheel_writes_of(config, devices.drop_last());
        if devices.last().reachable() {
            before + wheel_writes(config, devices.last())
        } else {
            before
        }
    }
}

/// `dev` is worked with: it can be written to, and it is managed.
pub open spec fn served(config: &Config, dev: AgentDeviceView) -> bool {
    dev.reachable() && config.device(dev.config_key).enabled
}

/// What is to be captured, in order.
pub open spec fn capture_requests(
    config: &Config,
    devices: Seq<AgentDeviceView>,
    app: Option<Seq<char>>,
) -> Seq<PlanRequestView>
    decreases devices.len(),
{
    if devices.len() == 0 {
        Seq::empty()
    } else {
        let before = capture_requests(config, devices.drop_last(), app);
        let dev = devices.last();
        if served(config, dev) {
            before.push(PlanRequestView { config_key: dev.config_key, route: dev.route->0, app })
        } else {
            before
        }
    }
}

/// The cycle state of `dev`: its presets, at the index that was set before if
/// the presets are the same, else at the first.
pub open spec fn cycle_state(
    config: &Config,
    before: Map<Seq<char>, DpiCycleStateView>,
    dev: AgentDeviceView,
) -> DpiCycleStateView {
    let presets = config.device(dev.config_key).dpi_presets;
    let kept = before.dom().contains(dev.config_key) && before[dev.config_key].presets == presets;
    DpiCycleStateView {
        presets,
        index: if kept {
            before[dev.config_key].index
        } else {
            0
        },
        target: dev.route,
        capabilities: if kept {
            before[dev.config_key].capabilities
        } else {
            None
        },
    }
}

/// The cycle states of all devices that are worked with.
pub open spec fn cycle_states(
    config: &Config,
    before: Map<Seq<char>, DpiCycleStateView>,
    devices: Seq<AgentDeviceView>,
) -> Map<Seq<char>, DpiCycleStateView>
    decreases devices.len(),
{
    if devices.len() == 0 {
        Map::empty()
    } else {
        let rest = cycle_states(config, before, devices.drop_last());
        let dev = devices.last();
        if served(config, dev) {
            rest.insert(dev.config_key, cycle_state(config, before, dev))
        } else {
            rest
        }
    }
}

/// Nothing but online flags, identities and models differs.
pub open spec fn same_set(a: Seq<AgentDeviceView>, b: Seq<AgentDeviceView>) -> bool {
    &&& a.len() == b.len()
    &&& forall|i: int| #![trigger a[i]]
        0 <= i < a.len() ==> a[i].config_key == b[i].config_key && a[i].route == b[i].route && a[i].capabilities
            == b[i].capabilities
}

/// The snapshot that is served to callers.
pub open spec fn plain(seen: Seq<SeenReceiverView>) -> Seq<DeviceInventoryView> {
    Seq::new(
        seen.len(),
        |i: int|
            DeviceInventoryView {
                receiver: seen[i].receiver,
                paired: Seq::new(seen[i].devices.len(), |j: int| seen[i].devices[j].device),
            },
    )
}

fn plain_inventory(seen: &Vec<SeenReceiver>) -> (r: Vec<DeviceInventory>)
    ensures
        r.deep_view() == plain(seen.deep_view()),
{
    let mut out: Vec<DeviceInventory> = Vec::new();
    let mut i: usize = 0;
    while i < seen.len()
        invariant
            i <= seen@.len(),
            out@.len() == i,
            forall|k: int| 0 <= k < i ==> (#[trigger] out@[k]).deep_view() == plain(seen.deep_view())[k],
        decreases seen@.len() - i,
    {
        let receiver: &SeenReceiver = &seen[i];
        let mut paired: Vec<PairedDevice> = Vec::new();
        let mut j: usize = 0;
        while j < receiver.devices.len()
            invariant
                j <= receiver.devices@.len(),
                paired@.len() == j,
                forall|k: int| 0 <= k < j ==> (#[trigger] paired@[k]).deep_view()
                    == receiver.devices@[k].device.deep_view(),
            decreases receiver.devices@.len() - j,
        {
            paired.push(receiver.devices[j].device.copy());
            j += 1;
        }
        let inventory = DeviceInventory { receiver: receiver.receiver.copy(), paired };
        assert(inventory.deep_view().paired =~= plain(seen.deep_view())[i as int].paired);
        out.push(inventory);
        i += 1;
    }
    assert(out.deep_view() =~= plain(seen.deep_view()));
    out
}

/// The agent's settings, its devices, and what it owes them.
pub struct Orchestrator {
    pub config: Config,
    pub devices: Vec<AgentDevice>,
    /// The place of the selected device.
    pub current: usize,
    /// The application that is in front.
    pub current_app: Option<String>,
    pub inventory: InventoryState,
    /// The next refresh writes to all devices: they may have lost power.
    pub reapply_all_next_refresh: bool,
    /// The keys of the devices due one confirming write.
    pub reapply_followup: Vec<String>,
}

impl Orchestrator {
    /// The key of the selected device.
    pub open spec fn selected(&self) -> Option<Seq<char>> {
        if self.current < self.devices@.len() {
            Some(self.devices.deep_view()[self.current as int].config_key)
        } else {
            None
        }
    }

    /// The OS hook's maps for `key` while `app` is in front.
    pub open spec fn hook_maps(&self, key: Option<Seq<char>>, app: Option<Seq<char>>) -> HookMapsPlanView {
        if key is Some && !self.config.device(key->0).enabled {
            HookMapsPlanView::Empty
        } else {
            HookMapsPlanView::Project(HookProjectionView { key, app })
        }
    }

    /// What the devices, the settings and the application in front call for.
    pub open spec fn capture(&self) -> Seq<PlanRequestView> {
        capture_requests(&self.config, self.devices.deep_view(), self.current_app.deep_view())
    }

    /// What is published when everything is built anew.
    pub open spec fn full_publication(&self) -> PublicationView {
        PublicationView {
            hook_maps: Some(self.hook_maps(self.selected(), self.current_app.deep_view())),
            gestures: Some(self.selected()),
            capture: self.capture(),
        }
    }

    /// What is published when only online flags changed.
    pub open spec fn device_publication(&self) -> PublicationView {
        PublicationView { hook_maps: None, gestures: None, capture: self.capture() }
    }

    /// `after` is `before` rebuilt for this state.
    pub open spec fn cycles_rebuilt(&self, before: &DpiCycles, after: &DpiCycles) -> bool {
        &&& after.selected.deep_view() == self.selected()
        &&& after.states() == cycle_states(&self.config, before.states(), self.devices.deep_view())
    }

    /// An agent with these settings that knows of no device yet, and what it
    /// publishes first.
    pub fn new(config: Config, cycles: &mut DpiCycles) -> (r: (Self, Publication))
        ensures
            r.0.config == config,
            r.0.devices@.len() == 0,
            r.0.current == 0,
            r.0.current_app is None,
            r.0.inventory is Pending,
            !r.0.reapply_all_next_refresh,
            r.0.reapply_followup@.len() == 0,
            r.1.deep_view() == r.0.full_publication(),
            r.0.cycles_rebuilt(old(cycles), final(cycles)),
    {
        let orch = Orchestrator {
            config,
            devices: Vec::new(),
            current: 0,
            current_app: None,
            inventory: InventoryState::Pending,
            reapply_all_next_refresh: false,
            reapply_followup: Vec::new(),
        };
        let publication = orch.rebuild(cycles);
        (orch, publication)
    }

    /// The key of the selected device.
    pub fn current_key(&self) -> (r: Option<String>)
        ensures
            r.deep_view() == self.selected(),
    {
        if self.current < self.devices.len() {
            Some(self.devices[self.current].config_key.copy())
        } else {
            None
        }
    }

    /// The OS hook's maps for `key` while `app` is in front: none for a device
    /// that is not managed.
    pub fn hook_maps_for(&self, key: &Option<String>, app: &Option<String>) -> (r: HookMapsPlan)
        ensures
            r.deep_view() == self.hook_maps(key.deep_view(), app.deep_view()),
    {
        if let Some(k) = key {
            if !self.config.device_enabled(k.as_str()) {
                return HookMapsPlan::Empty;
            }
        }
        HookMapsPlan::Project(HookProjection { key: key.copy(), app: app.copy() })
    }

    /// Publishes everything anew.
    pub fn rebuild(&self, cycles: &mut DpiCycles) -> (r: Publication)
        ensures
            r.deep_view() == self.full_publication(),
            self.cycles_rebuilt(old(cycles), final(cycles)),
    {
        let key = self.current_key();
        let hook_maps = self.hook_maps_for(&key, &self.current_app);
        let devices = self.publish_device_runtime(cycles);
        Publication { hook_maps: Some(hook_maps), gestures: Some(key), capture: devices.capture }
    }

    /// Publishes what follows from the devices and the settings: what is to be
    /// captured, and the cycle states.
    pub fn publish_device_runtime(&self, cycles: &mut DpiCycles) -> (r: Publication)
        ensures
            r.deep_view() == self.device_publication(),
            self.cycles_rebuilt(old(cycles), final(cycles)),
    {
        let capture = self.capture_plans_for();
        let key = self.current_key();
        self.rebuild_dpi_cycles(key, cycles);
        Publication { hook_maps: None, gestures: None, capture }
    }

    /// Builds the cycle states of all devices that are worked with. A device
    /// whose presets did not change keeps its index and what is known of its
    /// sensor.
    pub fn rebuild_dpi_cycles(&self, selected: Option<String>, cycles: &mut DpiCycles)
        ensures
            final(cycles).selected.deep_view() == selected.deep_view(),
            final(cycles).states() == cycle_states(&self.config, old(cycles).states(), self.devices.deep_view()),
    {
        let ghost before = cycles.states();
        let ghost all = self.devices.deep_view();
        let mut rebuilt = DpiCycles { selected, by_key: Table::new() };
        let mut i: usize = 0;
        assert(rebuilt.states() =~= cycle_states(&self.config, before, all.take(0)));
        while i < self.devices.len()
            invariant
                i <= self.devices@.len(),
                all == self.devices.deep_view(),
                before == cycles.states(),
                rebuilt.selected.deep_view() == selected.deep_view(),
                rebuilt.states() == cycle_states(&self.config, before, all.take(i as int)),
            decreases self.devices@.len() - i,
        {
            let dev: &AgentDevice = &self.devices[i];
            let ghost d = dev.deep_view();
            let ghost so_far = rebuilt.states();
            proof {
                assert(all.take(i + 1).drop_last() =~= all.take(i as int));
                assert(all.take(i + 1).last() == d);
            }
            if dev.online && self.config.device_enabled(dev.config_key.as_str()) {
                if let Some(route) = &dev.route {
                    let presets = self.config.dpi_presets(dev.config_key.as_str());
                    let mut index: usize = 0;
                    let mut capabilities: Option<DpiCapabilities> = None;
                    if let Some(state) = cycles.by_key.get(&dev.config_key) {
                        assert(state.presets.deep_view() =~= state.presets@);
                        assert(presets.deep_view() =~= presets@);
                        if state.presets.same(&presets) {
                            index = state.index;
                            capabilities = state.capabilities.copy();
                        }
                        assert(before[d.config_key] == state.deep_view());
                    }
                    let state = DpiCycleState { presets, index, target: Some(route.copy()), capabilities };
                    assert(state.deep_view() == cycle_state(&self.config, before, d));
                    rebuilt.by_key.insert(dev.config_key.copy(), state);
                    assert(rebuilt.states() =~= so_far.insert(d.config_key, cycle_state(&self.config, before, d)));
                }
            }
            i += 1;
        }
        assert(all.take(self.devices@.len() as int) =~= all);
        *cycles = rebuilt;
    }

    /// What is to be captured: the inputs of every device that is worked with.
    pub fn capture_plans_for(&self) -> (r: Vec<PlanRequest>)
        ensures
            r.deep_view() == self.capture(),
    {
        let ghost all = self.devices.deep_view();
        let ghost app = self.current_app.deep_view();
        let mut out: Vec<PlanRequest> = Vec::new();
        let mut i: usize = 0;
        assert(out.deep_view() =~= capture_requests(&self.config, all.take(0), app));
        while i < self.devices.len()
            invariant
                i <= self.devices@.len(),
                all == self.devices.deep_view(),
                app == self.current_app.deep_view(),
                out.deep_view() == capture_requests(&self.config, all.take(i as int), app),
            decreases self.devices@.len() - i,
        {
            let dev: &AgentDevice = &self.devices[i];
            let ghost so_far = out.deep_view();
            proof {
                assert(all.take(i + 1).drop_last() =~= all.take(i as int));
                assert(all.take(i + 1).last() == dev.deep_view());
            }
            if dev.online && self.config.device_enabled(dev.config_key.as_str()) {
                if let Some(route) = &dev.route {
                    let request = PlanRequest {
                        config_key: dev.config_key.copy(),
                        route: route.copy(),
                        app: self.current_app.copy(),
                    };
                    out.push(request);
                    assert(out.deep_view() =~= so_far.push(request.deep_view()));
                }
            }
            i += 1;
        }
        assert(all.take(self.devices@.len() as int) =~= all);
        out
    }

    /// Takes over a snapshot. The snapshot is kept in any case; the selection is
    /// chosen anew and all maps are built anew only if the set of devices
    /// changed.
    pub fn refresh_inventory(&mut self, seen: &Vec<SeenReceiver>, cycles: &mut DpiCycles) -> (r: Outcome)
        ensures
            final(self).config == old(self).config,
            final(self).current_app == old(self).current_app,
            final(self).inventory matches InventoryState::Ready(kept) && kept.deep_view() == plain(seen.deep_view()),
            is_stable_sort(kept_of_all(seen.deep_view()), final(self).devices.deep_view()),
            !final(self).reapply_all_next_refresh,
            lists_first_sightings(
                old(self).devices.deep_view(),
                final(self).devices.deep_view(),
                old(self).reapply_all_next_refresh,
                final(self).reapply_followup.deep_view(),
            ),
            r.writes.deep_view() == writes_at(
                &old(self).config,
                final(self).devices.deep_view(),
                planned_places(
                    old(self).devices.deep_view(),
                    final(self).devices.deep_view(),
                    old(self).reapply_followup.deep_view(),
                    old(self).reapply_all_next_refresh,
                ),
            ),
            if same_set(final(self).devices.deep_view(), old(self).devices.deep_view()) {
                &&& final(self).current == old(self).current
                &&& r.publication.deep_view() == final(self).device_publication()
            } else {
                &&& final(self).current == picked(
                    final(self).devices.deep_view(),
                    old(self).config.selected_device.deep_view(),
                )
                &&& r.publication.deep_view() == final(self).full_publication()
            },
            final(self).cycles_rebuilt(old(cycles), final(cycles)),
    {
        self.inventory = InventoryState::Ready(plain_inventory(seen));
        let devices = build_devices(seen);
        let reapply_all = self.reapply_all_next_refresh;
        self.reapply_all_next_refresh = false;
        let (targets, next_followup) = plan_reapply(&self.devices, &devices, &self.reapply_followup, reapply_all);
        self.reapply_followup = next_followup;
        let ghost config = self.config;
        let mut writes: Vec<DeviceWrite> = Vec::new();
        let mut i: usize = 0;
        proof {
            assert(writes.deep_view() =~= writes_at(&config, devices.deep_view(), targets@.take(0)));
            assert(devices.deep_view().len() == devices.len());
            lemma_planned_places(
                old(self).devices.deep_view(),
                devices.deep_view(),
                old(self).reapply_followup.deep_view(),
                reapply_all,
            );
        }
        while i < targets.len()
            invariant
                i <= targets@.len(),
                config == self.config,
                forall|k: int| 0 <= k < targets@.len() ==> (#[trigger] targets@[k]) < devices@.len(),
                writes.deep_view() == writes_at(&config, devices.deep_view(), targets@.take(i as int)),
            decreases targets@.len() - i,
        {
            let ghost so_far = writes.deep_view();
            let dev: &AgentDevice = &devices[targets[i]];
            let mut more = self.reapply_volatile_settings(dev);
            let ghost added = more.deep_view();
            let ghost (a, b) = (writes@, more@);
            writes.append(&mut more);
            proof {
                assert(writes@ == a + b);
                assert(writes.deep_view() =~= so_far + added);
                assert(targets@.take(i + 1).drop_last() =~= targets@.take(i as int));
                assert(devices.deep_view()[targets@[i as int] as int] == dev.deep_view());
            }
            i += 1;
        }
        assert(targets@.take(targets@.len() as int) =~= targets@);
        let changed = !is_same_set(&devices, &self.devices);
        self.devices = devices;
        if changed {
            self.current = pick_current(&self.devices, &self.config.selected_device);
            let publication = self.rebuild(cycles);
            Outcome { writes, publication }
        } else {
            let publication = self.publish_device_runtime(cycles);
            Outcome { writes, publication }
        }
    }

    /// Has the next refresh write to every online device: after a system wake
    /// the devices may have lost power though nothing seems to have changed.
    pub fn reapply_volatile_on_next_refresh(&mut self)
        ensures
            *final(self) == (Orchestrator { reapply_all_next_refresh: true, ..*old(self) }),
    {
        self.reapply_all_next_refresh = true;
    }

    /// All that has to be written to `dev` after it lost power.
    pub fn reapply_volatile_settings(&self, dev: &AgentDevice) -> (r: Vec<DeviceWrite>)
        ensures
            r.deep_view() == volatile_writes(&self.config, dev.deep_view()),
    {
        let key = dev.config_key.as_str();
        let mut out: Vec<DeviceWrite> = Vec::new();
        assert(out.deep_view() =~= Seq::<DeviceWriteView>::empty());
        if !self.config.device_enabled(key) {
            return out;
        }
        let route: &DeviceRoute = match &dev.route {
            Some(route) => route,
            None => {
                return out;
            },
        };
        let (resolution, inverted) = configured_wheel_mode(&self.config, dev);
        let ghost v0 = out.deep_view();
        if resolution.is_some() || inverted.is_some() {
            out.push(DeviceWrite { route: route.copy(), change: DeviceChange::WheelMode { resolution, inverted } });
        }
        assert(out.deep_view() =~= wheel_writes(&self.config, dev.deep_view()));
        if let Some(lighting) = self.config.lighting(key) {
            if lighting.enabled {
                let ghost v1 = out.deep_view();
                out.push(DeviceWrite { route: route.copy(), change: DeviceChange::Lighting(lighting) });
                assert(out.deep_view() =~= v1 + write_if(
                    route.deep_view(),
                    Some(DeviceChange::Lighting(lighting)),
                ));
            }
        }
        if let Some(dpi) = self.config.dpi(key) {
            let ghost v2 = out.deep_view();
            out.push(DeviceWrite { route: route.copy(), change: DeviceChange::Dpi(dpi) });
            assert(out.deep_view() =~= v2 + write_if(route.deep_view(), Some(DeviceChange::Dpi(dpi))));
        }
        if let Some(smartshift) = self.config.smartshift(key) {
            let ghost v3 = out.deep_view();
            out.push(DeviceWrite { route: route.copy(), change: DeviceChange::SmartShift(smartshift) });
            assert(out.deep_view() =~= v3 + write_if(route.deep_view(), Some(DeviceChange::SmartShift(smartshift))));
        }
        assert(out.deep_view() =~= volatile_writes(&self.config, dev.deep_view()));
        out
    }

    /// The wheel settings of every device that can be written to.
    pub fn apply_native_wheel_modes(&self) -> (r: Vec<DeviceWrite>)
        ensures
            r.deep_view() == wheel_writes_of(&self.config, self.devices.deep_view()),
    {
        let ghost all = self.devices.deep_view();
        let mut out: Vec<DeviceWrite> = Vec::new();
        let mut i: usize = 0;
        assert(out.deep_view() =~= wheel_writes_of(&self.config, all.take(0)));
        while i < self.devices.len()
            invariant
                i <= self.devices@.len(),
                all == self.devices.deep_view(),
                out.deep_view() == wheel_writes_of(&self.config, all.take(i as int)),
            decreases self.devices@.len() - i,
        {
            let dev: &AgentDevice = &self.devices[i];
            let ghost so_far = out.deep_view();
            proof {
                assert(all.take(i + 1).drop_last() =~= all.take(i as int));
                assert(all.take(i + 1).last() == dev.deep_view());
            }
            if dev.online {
                if let Some(route) = &dev.route {
                    let (resolution, inverted) = configured_wheel_mode(&self.config, dev);
                    if resolution.is_some() || inverted.is_some() {
                        out.push(
                            DeviceWrite {
                                route: route.copy(),
                                change: DeviceChange::WheelMode { resolution, inverted },
                            },
                        );
                    }
                    assert(out.deep_view() =~= so_far + wheel_writes(&self.config, dev.deep_view()));
                }
            }
            i += 1;
        }
        assert(all.take(self.devices@.len() as int) =~= all);
        out
    }

    /// The latest snapshot; empty where there is none.
    pub fn inventory(&self) -> (r: Vec<DeviceInventory>)
        ensures
            match self.inventory {
                InventoryState::Ready(kept) => r.deep_view() == kept.deep_view(),
                _ => r@.len() == 0,
            },
    {
        match &self.inventory {
            InventoryState::Ready(kept) => kept.copy(),
            InventoryState::Pending | InventoryState::Unavailable => Vec::new(),
        }
    }

    /// Where enumeration stands.
    pub fn inventory_health(&self) -> (r: InventoryHealth)
        ensures
            r == match self.inventory {
                InventoryState::Pending => InventoryHealth::Scanning,
                InventoryState::Ready(_) => InventoryHealth::Ready,
                InventoryState::Unavailable => InventoryHealth::Unavailable,
            },
    {
        match &self.inventory {
            InventoryState::Pending => InventoryHealth::Scanning,
            InventoryState::Ready(_) => InventoryHealth::Ready,
            InventoryState::Unavailable => InventoryHealth::Unavailable,
        }
    }

    /// Notes that enumeration never worked. A snapshot that was taken once
    /// stays in force.
    pub fn mark_inventory_unavailable(&mut self)
        ensures
            *final(self) == (Orchestrator {
                inventory: if old(self).inventory is Pending {
                    InventoryState::Unavailable
                } else {
                    old(self).inventory
                },
                ..*old(self)
            }),
    {
        if matches!(self.inventory, InventoryState::Pending) {
            self.inventory = InventoryState::Unavailable;
        }
    }

    /// Whether the agent starts at login.
    pub fn launch_at_login(&self) -> (r: bool)
        ensures
            r == self.config.app_settings.launch_at_login,
    {
        self.config.app_settings.launch_at_login
    }

    /// Notes the application that is in front. If it is another one, the OS
    /// hook's maps are built anew; nothing else depends on it.
    pub fn set_current_app(&mut self, bundle: Option<String>) -> (r: Option<HookMapsPlan>)
        ensures
            if bundle.deep_view() == old(self).current_app.deep_view() {
                r is None && *final(self) == *old(self)
            } else {
                &&& *final(self) == (Orchestrator { current_app: bundle, ..*old(self) })
                &&& r.deep_view() == Some(final(self).hook_maps(final(self).selected(), bundle.deep_view()))
            },
    {
        if bundle.same(&self.current_app) {
            return None;
        }
        self.current_app = bundle;
        let key = self.current_key();
        Some(self.hook_maps_for(&key, &self.current_app))
    }

    /// Takes over new settings: the selection is chosen anew, everything is
    /// published anew, and the wheel settings are written.
    pub fn reload_config(&mut self, config: Config, cycles: &mut DpiCycles) -> (r: Outcome)
        ensures
            *final(self) == (Orchestrator { config, current: final(self).current, ..*old(self) }),
            final(self).current == picked(old(self).devices.deep_view(), config.selected_device.deep_view()),
            r.publication.deep_view() == final(self).full_publication(),
            r.writes.deep_view() == wheel_writes_of(&config, old(self).devices.deep_view()),
            final(self).cycles_rebuilt(old(cycles), final(cycles)),
    {
        self.config = config;
        self.current = pick_current(&self.devices, &self.config.selected_device);
        let publication = self.rebuild(cycles);
        let writes = self.apply_native_wheel_modes();
        Outcome { writes, publication }
    }
}

fn is_same_set(a: &Vec<AgentDevice>, b: &Vec<AgentDevice>) -> (r: bool)
    ensures
        r == same_set(a.deep_view(), b.deep_view()),
{
    if a.len() != b.len() {
        return false;
    }
    let ghost (av, bv) = (a.deep_view(), b.deep_view());
    let mut i: usize = 0;
    while i < a.len()
        invariant
            i <= a@.len(),
            a@.len() == b@.len(),
            av == a.deep_view(),
            bv == b.deep_view(),
            forall|k: int| #![trigger av[k]]
                0 <= k < i ==> av[k].config_key == bv[k].config_key && av[k].route == bv[k].route && av[k].capabilities
                    == bv[k].capabilities,
        decreases a@.len() - i,
    {
        let (x, y) = (&a[i], &b[i]);
        assert(av[i as int] == x.deep_view() && bv[i as int] == y.deep_view());
        if !(x.config_key.same(&y.config_key) && x.route.same(&y.route) && x.capabilities.same(&y.capabilities)) {
            return false;
        }
        i += 1;
    }
    true
}

/// All planned places are places of devices.
proof fn lemma_planned_places(
    prev: Seq<AgentDeviceView>,
    next: Seq<AgentDeviceView>,
    followup: Seq<Seq<char>>,
    reapply_all: bool,
)
    requires
        next.len() <= usize::MAX,
    ensures
        forall|k: int|
            0 <= k < planned_places(prev, next, followup, reapply_all).len() ==> (#[trigger] planned_places(
                prev,
                next,
                followup,
                reapply_all,
            )[k]) < next.len(),
{
    let a = reapply_places(prev, next, reapply_all);
    let b = indices(next.len()).filter(confirm_needed(prev, next, followup, reapply_all));
    crate::seqs::lemma_indices_contain(next.len(), reapply_needed(prev, next, reapply_all));
    crate::seqs::lemma_indices_contain(next.len(), confirm_needed(prev, next, followup, reapply_all));
    let all = planned_places(prev, next, followup, reapply_all);
    assert forall|k: int| 0 <= k < all.len() implies (#[trigger] all[k]) < next.len() by {
        if k < a.len() {
            assert(a.contains(all[k]));
        } else {
            assert(all[k] == b[k - a.len()]);
            assert(b.contains(all[k]));
        }
    }
}

/// Rebuilding the cycle states keeps the index of a device and what is known of
/// its sensor, as long as its presets stay the same.
pub proof fn law_rebuild_keeps_dpi_index(
    config: &Config,
    before: Map<Seq<char>, DpiCycleStateView>,
    devices: Seq<AgentDeviceView>,
    key: Seq<char>,
)
    requires
        before.dom().contains(key),
        before[key].presets == config.device(key).dpi_presets,
        cycle_states(config, before, devices).dom().contains(key),
    ensures
        cycle_states(config, before, devices)[key].index == before[key].index,
        cycle_states(config, before, devices)[key].capabilities == before[key].capabilities,
    decreases devices.len(),
{
    if devices.len() > 0 && cycle_states(config, before, devices.drop_last()).dom().contains(key) {
        law_rebuild_keeps_dpi_index(config, before, devices.drop_last(), key);
    }
}

/// Every device that is worked with has a cycle state, and no other has one.
pub proof fn law_cycle_state_of_every_served_device(
    config: &Config,
    before: Map<Seq<char>, DpiCycleStateView>,
    devices: Seq<AgentDeviceView>,
    key: Seq<char>,
)
    ensures
        cycle_states(config, before, devices).dom().contains(key) <==> exists|i: int|
            0 <= i < devices.len() && (#[trigger] devices[i]).config_key == key && served(config, devices[i]),
    decreases devices.len(),
{
    if devices.len() > 0 {
        let rest = devices.drop_last();
        law_cycle_state_of_every_served_device(config, before, rest, key);
        let last = devices.last();
        if cycle_states(config, before, rest).dom().contains(key) {
            let i = choose|i: int|
                0 <= i < rest.len() && (#[trigger] rest[i]).config_key == key && served(config, rest[i]);
            assert(devices[i] == rest[i]);
        }
        if exists|i: int|
            0 <= i < devices.len() && (#[trigger] devices[i]).config_key == key && served(config, devices[i])
        {
            let i = choose|i: int|
                0 <= i < devices.len() && (#[trigger] devices[i]).config_key == key && served(config, devices[i]);
            if i < rest.len() {
                assert(rest[i] == devices[i]);
            }
        }
        if served(config, last) && last.config_key == key {
            assert(devices[devices.len() - 1] == last);
        }
    }
}

/// A device that is not managed is left alone: after a power loss nothing is
/// written to it, its inputs are not captured, and it has no cycle state.
pub proof fn law_unmanaged_device_left_alone(
    config: &Config,
    before: Map<Seq<char>, DpiCycleStateView>,
    devices: Seq<AgentDeviceView>,
    app: Option<Seq<char>>,
    dev: AgentDeviceView,
)
    requires
        !config.device(dev.config_key).enabled,
    ensures
        volatile_writes(config, dev).len() == 0,
        forall|i: int|
            0 <= i < capture_requests(config, devices, app).len() ==> (#[trigger] capture_requests(
                config,
                devices,
                app,
            )[i]).config_key != dev.config_key,
        !cycle_states(config, before, devices).dom().contains(dev.config_key),
    decreases devices.len(),
{
    law_cycle_state_of_every_served_device(config, before, devices, dev.config_key);
    if devices.len() > 0 {
        law_unmanaged_device_left_alone(config, before, devices.drop_last(), app, dev);
    }
}

/// No two devices have the same identity.
pub open spec fn ids_differ(devices: Seq<AgentDeviceView>) -> bool {
    forall|i: int, j: int|
        0 <= i < j < devices.len() ==> (#[trigger] devices[i]).stable_id != (#[trigger] devices[j]).stable_id
}

/// A device that is written to at a refresh can be written to.
pub proof fn law_only_reachable_devices_written(
    prev: Seq<AgentDeviceView>,
    next: Seq<AgentDeviceView>,
    followup: Seq<Seq<char>>,
    reapply_all: bool,
)
    requires
        next.len() <= usize::MAX,
    ensures
        forall|i: usize|
            #[trigger] planned_places(prev, next, followup, reapply_all).contains(i) ==> i < next.len()
                && next[i as int].reachable(),
{
    let a = reapply_places(prev, next, reapply_all);
    let b = indices(next.len()).filter(confirm_needed(prev, next, followup, reapply_all));
    let all = planned_places(prev, next, followup, reapply_all);
    crate::seqs::lemma_indices_contain(next.len(), reapply_needed(prev, next, reapply_all));
    crate::seqs::lemma_indices_contain(next.len(), confirm_needed(prev, next, followup, reapply_all));
    assert forall|i: usize| #[trigger] all.contains(i) implies i < next.len() && next[i as int].reachable() by {
        let k = choose|k: int| 0 <= k < all.len() && all[k] == i;
        if k < a.len() {
            assert(a[k] == i);
            assert(a.contains(i));
        } else {
            assert(b[k - a.len()] == i);
            assert(b.contains(i));
        }
    }
}

/// After a system wake every device that can be written to is written to.
pub proof fn law_wake_writes_to_every_reachable_device(
    prev: Seq<AgentDeviceView>,
    next: Seq<AgentDeviceView>,
    followup: Seq<Seq<char>>,
    i: usize,
)
    requires
        next.len() <= usize::MAX,
        i < next.len(),
        next[i as int].reachable(),
    ensures
        planned_places(prev, next, followup, true).contains(i),
{
    let a = reapply_places(prev, next, true);
    crate::seqs::lemma_indices_contain(next.len(), reapply_needed(prev, next, true));
    assert(a.contains(i));
    let k = choose|k: int| 0 <= k < a.len() && a[k] == i;
    assert(planned_places(prev, next, followup, true)[k] == i);
}

/// A device that was known but offline is written to when it is back.
pub proof fn law_reconnected_device_is_written(
    prev: Seq<AgentDeviceView>,
    next: Seq<AgentDeviceView>,
    followup: Seq<Seq<char>>,
    before: int,
    i: usize,
)
    requires
        next.len() <= usize::MAX,
        ids_differ(prev),
        0 <= before < prev.len(),
        !prev[before].online,
        i < next.len(),
        next[i as int].stable_id == prev[before].stable_id,
        next[i as int].reachable(),
    ensures
        planned_places(prev, next, followup, false).contains(i),
{
    let dev = next[i as int];
    crate::seqs::lemma_indices_contain(next.len(), reapply_needed(prev, next, false));
    assert(!was_online(prev, dev.stable_id)) by {
        if was_online(prev, dev.stable_id) {
            let k = choose|k: int| #[trigger] is_first_with_id(prev, dev.stable_id, k) && prev[k].online;
            if k != before {
                assert(prev[k].stable_id != prev[before].stable_id);
            }
        }
    }
    let a = reapply_places(prev, next, false);
    assert(a.contains(i));
    let k = choose|k: int| 0 <= k < a.len() && a[k] == i;
    assert(planned_places(prev, next, followup, false)[k] == i);
}

/// While nothing changes and nothing is owed, nothing is written.
pub proof fn law_steady_devices_are_not_written(devices: Seq<AgentDeviceView>)
    requires
        devices.len() <= usize::MAX,
        ids_differ(devices),
    ensures
        planned_places(devices, devices, Seq::empty(), false).len() == 0,
{
    let n = devices.len();
    let none: Seq<Seq<char>> = Seq::empty();
    crate::seqs::lemma_indices_contain(n, reapply_needed(devices, devices, false));
    crate::seqs::lemma_indices_contain(n, confirm_needed(devices, devices, none, false));
    let a = reapply_places(devices, devices, false);
    let b = indices(n).filter(confirm_needed(devices, devices, none, false));
    if a.len() > 0 {
        assert(a.contains(a[0]));
        let j = a[0] as int;
        assert(is_first_with_id(devices, devices[j].stable_id, j));
    }
    if b.len() > 0 {
        assert(b.contains(b[0]));
    }
}

/// A device that is seen for the first time is written to at once, once more at
/// the next refresh, and then no more while nothing changes.
pub proof fn law_first_sighting_confirmed_once(
    prev: Seq<AgentDeviceView>,
    devices: Seq<AgentDeviceView>,
    before: Seq<Seq<char>>,
    after_first: Seq<Seq<char>>,
    after_second: Seq<Seq<char>>,
    i: usize,
)
    requires
        devices.len() <= usize::MAX,
        ids_differ(devices),
        i < devices.len(),
        devices[i as int].reachable(),
        !knows_id(prev, devices[i as int].stable_id),
        lists_first_sightings(prev, devices, false, after_first),
        lists_first_sightings(devices, devices, false, after_second),
    ensures
        planned_places(prev, devices, before, false).contains(i),
        planned_places(devices, devices, after_first, false).contains(i),
        after_second.len() == 0,
        planned_places(devices, devices, after_second, false).len() == 0,
{
    let n = devices.len();
    let dev = devices[i as int];
    crate::seqs::lemma_indices_contain(n, reapply_needed(prev, devices, false));
    crate::seqs::lemma_indices_contain(n, reapply_needed(devices, devices, false));
    crate::seqs::lemma_indices_contain(n, confirm_needed(devices, devices, after_first, false));
    crate::seqs::lemma_indices_contain(n, confirm_needed(devices, devices, after_second, false));
    assert(!was_online(prev, dev.stable_id)) by {
        if was_online(prev, dev.stable_id) {
            let k = choose|k: int| #[trigger] is_first_with_id(prev, dev.stable_id, k) && prev[k].online;
            assert(prev[k].stable_id == dev.stable_id);
        }
    }
    let a = reapply_places(prev, devices, false);
    assert(a.contains(i));
    let k = choose|k: int| 0 <= k < a.len() && a[k] == i;
    assert(planned_places(prev, devices, before, false)[k] == i);
    assert forall|j: int| 0 <= j < n implies !needs_reapply(devices, #[trigger] devices[j], false) by {
        if devices[j].online {
            assert(is_first_with_id(devices, devices[j].stable_id, j));
        }
    }
    assert(is_first_sighting(prev, devices, false, dev.config_key));
    assert(after_first.contains(dev.config_key));
    let none = reapply_places(devices, devices, false);
    assert(none.len() == 0) by {
        if none.len() > 0 {
            assert(none.contains(none[0]));
        }
    }
    let b = indices(n).filter(confirm_needed(devices, devices, after_first, false));
    assert(b.contains(i));
    let m = choose|m: int| 0 <= m < b.len() && b[m] == i;
    assert(planned_places(devices, devices, after_first, false)[m] == i);
    assert(after_second.len() == 0) by {
        if after_second.len() > 0 {
            let key = after_second[0];
            assert(after_second.contains(key));
            assert(is_first_sighting(devices, devices, false, key));
        }
    }
    let c = indices(n).filter(confirm_needed(devices, devices, after_second, false));
    assert(c.len() == 0) by {
        if c.len() > 0 {
            assert(c.contains(c[0]));
        }
    }
}

/// A saved selection is found again wherever the device stands in the list.
pub proof fn law_saved_selection_is_found(devices: Seq<AgentDeviceView>, key: Seq<char>)
    requires
        has_key(devices, key),
    ensures
        0 <= picked(devices, Some(key)) < devices.len(),
        devices[picked(devices, Some(key))].config_key == key,
{
    let i = choose|i: int| 0 <= i < devices.len() && (#[trigger] devices[i]).config_key == key;
    let k = lemma_first_of_key(devices, key, i);
    lemma_picked(devices, key, k);
}

proof fn lemma_first_of_key(devices: Seq<AgentDeviceView>, key: Seq<char>, i: int) -> (k: int)
    requires
        0 <= i < devices.len(),
        devices[i].config_key == key,
    ensures
        is_first_with_key(devices, key, k),
    decreases i,
{
    if is_first_with_key(devices, key, i) {
        i
    } else {
        let j = choose|j: int| 0 <= j < i && (#[trigger] devices[j]).config_key == key;
        lemma_first_of_key(devices, key, j)
    }
}

/// Each setting of a managed device that can be reached is written exactly if it
/// is set, whatever else is set: SmartShift, the DPI, the lighting if it is on,
/// and the wheel mode as far as the device can do it. Nothing is written twice
/// and nothing goes to another device.
pub proof fn law_each_setting_is_written_for_itself(
    config: &Config,
    dev: AgentDeviceView,
    route: DeviceRouteView,
    smartshift: SmartShift,
    dpi: u32,
    lighting: Lighting,
)
    requires
        dev.route == Some(route),
        config.device(dev.config_key).enabled,
    ensures
        ({
            let (own, writes) = (config.device(dev.config_key), volatile_writes(config, dev));
            &&& writes.contains(DeviceWriteView { route, change: DeviceChange::SmartShift(smartshift) })
                <==> own.smartshift == Some(smartshift)
            &&& writes.contains(DeviceWriteView { route, change: DeviceChange::Dpi(dpi) }) <==> own.dpi == Some(dpi)
            &&& writes.contains(DeviceWriteView { route, change: DeviceChange::Lighting(lighting) })
                <==> own.lighting == Some(lighting) && lighting.enabled
            &&& forall|i: int| 0 <= i < writes.len() ==> (#[trigger] writes[i]).route == route
            &&& writes.len() == wheel_writes(config, dev).len() + (if own.lighting is Some && own.lighting->0.enabled {
                1int
            } else {
                0
            }) + (if own.dpi is Some {
                1int
            } else {
                0
            }) + (if own.smartshift is Some {
                1int
            } else {
                0
            })
        }),
{
    let own = config.device(dev.config_key);
    let writes = volatile_writes(config, dev);
    let wheel = wheel_writes(config, dev);
    let (l, d, s) = (
        write_if(
            route,
            match own.lighting {
                Some(lighting) => if lighting.enabled {
                    Some(DeviceChange::Lighting(lighting))
                } else {
                    None
                },
                None => None,
            },
        ),
        write_if(
            route,
            match own.dpi {
                Some(dpi) => Some(DeviceChange::Dpi(dpi)),
                None => None,
            },
        ),
        write_if(
            route,
            match own.smartshift {
                Some(smartshift) => Some(DeviceChange::SmartShift(smartshift)),
                None => None,
            },
        ),
    );
    assert(writes == wheel + l + d + s);
    assert forall|w: DeviceWriteView| #[trigger] writes.contains(w) <==> wheel.contains(w) || l.contains(w)
        || d.contains(w) || s.contains(w) by {
        lemma_add_contains(wheel + l + d, s, w);
        lemma_add_contains(wheel + l, d, w);
        lemma_add_contains(wheel, l, w);
    }
    lemma_write_if_contains(route, own);
    assert forall|w: DeviceWriteView| #[trigger] wheel.contains(w) implies w.change is WheelMode && w.route == route by {}
    assert forall|i: int| 0 <= i < writes.len() implies (#[trigger] writes[i]).route == route by {
        assert(writes.contains(writes[i]));
    }
}

proof fn lemma_add_contains<A>(a: Seq<A>, b: Seq<A>, x: A)
    ensures
        (a + b).contains(x) <==> a.contains(x) || b.contains(x),
{
    let t = a + b;
    if a.contains(x) {
        let i = choose|i: int| 0 <= i < a.len() && a[i] == x;
        assert(t[i] == x);
    }
    if b.contains(x) {
        let i = choose|i: int| 0 <= i < b.len() && b[i] == x;
        assert(t[a.len() + i] == x);
    }
    if t.contains(x) {
        let i = choose|i: int| 0 <= i < t.len() && t[i] == x;
        if i < a.len() {
            assert(a[i] == x);
        } else {
            assert(b[i - a.len()] == x);
        }
    }
}

proof fn lemma_write_if_contains(route: DeviceRouteView, own: crate::config::DeviceSettingsView)
    ensures
        forall|change: Option<DeviceChange>, w: DeviceWriteView| #[trigger]
            write_if(route, change).contains(w) <==> change is Some && w == (DeviceWriteView {
                route,
                change: change->0,
            }),
{
    assert forall|change: Option<DeviceChange>, w: DeviceWriteView| #[trigger]
        write_if(route, change).contains(w) <==> change is Some && w == (DeviceWriteView { route, change: change->0 }) by {
        if let Some(change) = change {
            assert(write_if(route, Some(change))[0] == (DeviceWriteView { route, change }));
        }
    }
}

/// The wheel mode is written at a power loss and at a reload exactly as far as it
/// is to be set: the resolution if the wheel has one and one is stored, the
/// inversion if the wheel can be inverted. Where neither is, nothing is written.
pub proof fn law_wheel_mode_is_what_is_stored(config: &Config, dev: AgentDeviceView, route: DeviceRouteView)
    requires
        dev.route == Some(route),
    ensures
        ({
            let own = config.device(dev.config_key);
            let (resolution, inverted) = wheel_mode(config, dev);
            let write = DeviceWriteView { route, change: DeviceChange::WheelMode { resolution, inverted } };
            &&& resolution is Some <==> dev.capabilities is Some && dev.capabilities->0.hires_wheel
                && own.scroll_resolution is Some
            &&& resolution is Some ==> resolution == own.scroll_resolution
            &&& inverted is Some <==> dev.capabilities is Some && dev.capabilities->0.scroll_inversion
            &&& inverted is Some ==> inverted == Some(own.invert_scroll)
            &&& resolution is Some || inverted is Some ==> wheel_writes(config, dev) == seq![write]
            &&& resolution is None && inverted is None ==> wheel_writes(config, dev).len() == 0
            &&& own.enabled ==> volatile_writes(config, dev).take(wheel_writes(config, dev).len() as int)
                == wheel_writes(config, dev)
        }),
{
    let writes = volatile_writes(config, dev);
    let wheel = wheel_writes(config, dev);
    if config.device(dev.config_key).enabled {
        assert(writes.take(wheel.len() as int) =~= wheel);
    }
}

/// A device that has no route, or is not managed, is never written to after a
/// power loss.
pub proof fn law_unreachable_or_unmanaged_is_not_written(config: &Config, dev: AgentDeviceView)
    requires
        dev.route is None || !config.device(dev.config_key).enabled,
    ensures
        volatile_writes(config, dev).len() == 0,
        dev.route is None ==> wheel_writes(config, dev).len() == 0,
{
}

/// A refresh writes all that the devices at the planned places are owed, one
/// after the other, and nothing else.
pub proof fn law_writes_are_those_of_the_places(
    config: &Config,
    devices: Seq<AgentDeviceView>,
    first: Seq<usize>,
    second: Seq<usize>,
    place: usize,
)
    ensures
        writes_at(config, devices, first + second) == writes_at(config, devices, first) + writes_at(
            config,
            devices,
            second,
        ),
        writes_at(config, devices, seq![place]) == volatile_writes(config, devices[place as int]),
        writes_at(config, devices, Seq::empty()).len() == 0,
    decreases second.len(),
{
    let one = seq![place];
    assert(one.drop_last() =~= Seq::<usize>::empty());
    assert(writes_at(config, devices, one.drop_last()) =~= Seq::empty());
    assert(writes_at(config, devices, one) =~= volatile_writes(config, devices[place as int]));
    if second.len() == 0 {
        assert(first + second =~= first);
        assert(writes_at(config, devices, first) + writes_at(config, devices, second) =~= writes_at(
            config,
            devices,
            first,
        ));
    } else {
        law_writes_are_those_of_the_places(config, devices, first, second.drop_last(), place);
        assert((first + second).drop_last() =~= first + second.drop_last());
        assert(writes_at(config, devices, first + second) =~= writes_at(config, devices, first) + writes_at(
            config,
            devices,
            second,
        ));
    }
}

/// A reload writes the wheel modes of all devices that are online and have a
/// route, in order, and of no other.
pub proof fn law_reload_writes_every_wheel(
    config: &Config,
    first: Seq<AgentDeviceView>,
    second: Seq<AgentDeviceView>,
    dev: AgentDeviceView,
)
    ensures
        wheel_writes_of(config, first + second) == wheel_writes_of(config, first) + wheel_writes_of(config, second),
        dev.online && dev.route is Some ==> wheel_writes_of(config, seq![dev]) == wheel_writes(config, dev),
        !(dev.online && dev.route is Some) ==> wheel_writes_of(config, seq![dev]).len() == 0,
    decreases second.len(),
{
    let one = seq![dev];
    assert(one.drop_last() =~= Seq::<AgentDeviceView>::empty());
    assert(one.last() == dev);
    assert(wheel_writes_of(config, one.drop_last()) =~= Seq::empty());
    if dev.online && dev.route is Some {
        assert(wheel_writes_of(config, one) =~= wheel_writes(config, dev));
    }
    if second.len() == 0 {
        assert(first + second =~= first);
        assert(wheel_writes_of(config, first) + wheel_writes_of(config, second) =~= wheel_writes_of(config, first));
    } else {
        law_reload_writes_every_wheel(config, first, second.drop_last(), dev);
        assert((first + second).drop_last() =~= first + second.drop_last());
        assert(wheel_writes_of(config, first + second) =~= wheel_writes_of(config, first) + wheel_writes_of(
            config,
            second,
        ));
    }
}

/// The inputs of every managed device that is online and has a route are
/// captured, over that route and for the application in front, in order, and of
/// no other.
pub proof fn law_every_served_device_is_captured(
    config: &Config,
    first: Seq<AgentDeviceView>,
    second: Seq<AgentDeviceView>,
    app: Option<Seq<char>>,
    dev: AgentDeviceView,
)
    ensures
        capture_requests(config, first + second, app) == capture_requests(config, first, app) + capture_requests(
            config,
            second,
            app,
        ),
        dev.online && dev.route is Some && config.device(dev.config_key).enabled ==> capture_requests(
            config,
            seq![dev],
            app,
        ) == seq![PlanRequestView { config_key: dev.config_key, route: dev.route->0, app }],
        !(dev.online && dev.route is Some && config.device(dev.config_key).enabled) ==> capture_requests(
            config,
            seq![dev],
            app,
        ).len() == 0,
    decreases second.len(),
{
    let one = seq![dev];
    assert(one.drop_last() =~= Seq::<AgentDeviceView>::empty());
    assert(one.last() == dev);
    assert(capture_requests(config, one.drop_last(), app) =~= Seq::empty());
    if served(config, dev) {
        assert(capture_requests(config, one, app) =~= seq![
            PlanRequestView { config_key: dev.config_key, route: dev.route->0, app },
        ]);
    }
    if second.len() == 0 {
        assert(first + second =~= first);
        assert(capture_requests(config, first, app) + capture_requests(config, second, app) =~= capture_requests(
            config,
            first,
            app,
        ));
    } else {
        law_every_served_device_is_captured(config, first, second.drop_last(), app, dev);
        assert((first + second).drop_last() =~= first + second.drop_last());
        assert(capture_requests(config, first + second, app) =~= capture_requests(config, first, app)
            + capture_requests(config, second, app));
    }
}

/// The cycle state of a managed device that is online and has a route holds its
/// stored presets and its route. It starts at the first preset if the presets
/// changed or the device had no state.
pub proof fn law_cycle_state_follows_the_settings(
    config: &Config,
    before: Map<Seq<char>, DpiCycleStateView>,
    devices: Seq<AgentDeviceView>,
    i: int,
)
    requires
        0 <= i < devices.len(),
        devices[i].online,
        devices[i].route is Some,
        config.device(devices[i].config_key).enabled,
        forall|j: int| i < j < devices.len() ==> (#[trigger] devices[j]).config_key != devices[i].config_key,
    ensures
        ({
            let key = devices[i].config_key;
            let state = cycle_states(config, before, devices)[key];
            let fresh = !before.dom().contains(key) || before[key].presets != config.device(key).dpi_presets;
            &&& cycle_states(config, before, devices).dom().contains(key)
            &&& state.presets == config.device(key).dpi_presets
            &&& state.target == devices[i].route
            &&& fresh ==> state.index == 0 && state.capabilities is None
            &&& !fresh ==> state.index == before[key].index && state.capabilities == before[key].capabilities
        }),
    decreases devices.len(),
{
    if i < devices.len() - 1 {
        assert(devices.last().config_key != devices[i].config_key);
        assert(devices.drop_last()[i] == devices[i]);
        law_cycle_state_follows_the_settings(config, before, devices.drop_last(), i);
    }
}

/// A snapshot leaves the set of devices as it was exactly if there are as many
/// devices, and each has the key, the route and the capabilities of the one at
/// its place. Otherwise everything is published anew.
pub proof fn law_any_change_of_the_set_counts(a: Seq<AgentDeviceView>, b: Seq<AgentDeviceView>, i: int)
    ensures
        a.len() != b.len() ==> !same_set(a, b),
        0 <= i < a.len() && same_set(a, b) ==> a[i].config_key == b[i].config_key && a[i].route == b[i].route
            && a[i].capabilities == b[i].capabilities,
        a.len() == b.len() && (forall|k: int|
            0 <= k < a.len() ==> (#[trigger] a[k]).config_key == b[k].config_key && a[k].route == b[k].route
                && a[k].capabilities == b[k].capabilities) ==> same_set(a, b),
{
}

/// The hook's maps are those of the device and the application, and none for a
/// device that is not managed.
pub proof fn law_hook_serves_managed_devices(agent: Orchestrator, key: Option<Seq<char>>, app: Option<Seq<char>>)
    ensures
        key is Some && !agent.config.device(key->0).enabled ==> agent.hook_maps(key, app) is Empty,
        key is None || agent.config.device(key->0).enabled ==> agent.hook_maps(key, app) == HookMapsPlanView::Project(
            HookProjectionView { key, app },
        ),
{
}

/// What is published when everything is built anew is that of the selected
/// device and of the application in front; otherwise only what is captured is.
pub proof fn law_publication_is_of_the_selected_device(agent: Orchestrator)
    ensures
        ({
            let key = if agent.current < agent.devices@.len() {
                Some(agent.devices@[agent.current as int].config_key@)
            } else {
                None
            };
            let app = agent.current_app.deep_view();
            let (all, devices) = (agent.full_publication(), agent.device_publication());
            let capture = capture_requests(&agent.config, agent.devices.deep_view(), app);
            &&& agent.selected() == key
            &&& all.hook_maps == Some(agent.hook_maps(key, app))
            &&& all.gestures == Some(key)
            &&& all.capture == capture
            &&& devices.hook_maps is None && devices.gestures is None
            &&& devices.capture == capture
        }),
{
    if agent.current < agent.devices@.len() {
        let place = agent.current as int;
        assert(agent.devices.deep_view()[place] == agent.devices@[place].deep_view());
    }
}

/// Rebuilding the cycle states selects the selected device, and makes the states
/// from the settings, the devices and what was.
pub proof fn law_rebuilt_cycles_follow_the_selection(agent: Orchestrator, before: DpiCycles, after: DpiCycles)
    requires
        agent.cycles_rebuilt(&before, &after),
    ensures
        after.selected.deep_view() == agent.selected(),
        after.states() == cycle_states(&agent.config, before.states(), agent.devices.deep_view()),
{
}

/// The selection is the first device with the saved key, and the first of all if
/// there is none or nothing is saved.
pub proof fn law_selection_is_the_saved_one_or_the_first(devices: Seq<AgentDeviceView>, key: Seq<char>, i: int)
    ensures
        picked(devices, None) == 0,
        0 <= i < devices.len() && devices[i].config_key == key ==> 0 <= picked(devices, Some(key)) <= i
            && devices[picked(devices, Some(key))].config_key == key,
        (forall|j: int| 0 <= j < devices.len() ==> (#[trigger] devices[j]).config_key != key) ==> picked(
            devices,
            Some(key),
        ) == 0,
{
    if 0 <= i < devices.len() && devices[i].config_key == key {
        let k = lemma_first_of_key(devices, key, i);
        lemma_picked(devices, key, k);
        if i < k {
            assert(devices[i].config_key != key);
        }
    }
}

/// Every device of a snapshot that has told its model is listed, with its keys,
/// route, capabilities and online flag.
pub proof fn law_every_told_device_is_listed(
    seen: Seq<SeenReceiverView>,
    list: Seq<AgentDeviceView>,
    i: int,
    j: int,
)
    requires
        is_stable_sort(kept_of_all(seen), list),
        0 <= i < seen.len(),
        0 <= j < seen[i].devices.len(),
        seen[i].devices[j].device.model_info is Some,
    ensures
        list.contains(
            AgentDeviceView {
                config_key: seen[i].devices[j].config_key,
                model_key: seen[i].devices[j].model_key,
                stable_id: seen[i].devices[j].stable_id,
                route: seen[i].devices[j].route,
                capabilities: seen[i].devices[j].device.capabilities,
                online: seen[i].devices[j].device.online,
            },
        ),
{
    lemma_kept_of_all(seen, i, j);
    crate::sort::law_sorting_only_rearranges(kept_of_all(seen), list);
}

proof fn lemma_kept_of_all(seen: Seq<SeenReceiverView>, i: int, j: int)
    requires
        0 <= i < seen.len(),
        0 <= j < seen[i].devices.len(),
        seen[i].devices[j].device.model_info is Some,
    ensures
        kept_of_all(seen).contains(kept(seen[i].devices[j])),
    decreases seen.len(),
{
    let (rest, last) = (seen.drop_last(), seen.last());
    lemma_add_contains(kept_of_all(rest), kept_of(last.devices), kept(seen[i].devices[j]));
    if i < seen.len() - 1 {
        assert(rest[i] == seen[i]);
        lemma_kept_of_all(rest, i, j);
    } else {
        lemma_kept_of(last.devices, j);
    }
}

proof fn lemma_kept_of(devices: Seq<SeenDeviceView>, j: int)
    requires
        0 <= j < devices.len(),
        devices[j].device.model_info is Some,
    ensures
        kept_of(devices).contains(kept(devices[j])),
    decreases devices.len(),
{
    let before = kept_of(devices.drop_last());
    lemma_push_contains(before, kept(devices.last()));
    if j < devices.len() - 1 {
        assert(devices.drop_last()[j] == devices[j]);
        lemma_kept_of(devices.drop_last(), j);
    }
}

/// Only devices of the snapshot that have told their model are listed, in the
/// order of their identities, the model breaking a tie.
pub proof fn law_only_told_devices_are_listed(seen: Seq<SeenReceiverView>, list: Seq<AgentDeviceView>, k: int)
    requires
        is_stable_sort(kept_of_all(seen), list),
        0 <= k < list.len(),
    ensures
        exists|i: int, j: int|
            #![trigger seen[i].devices[j]]
            0 <= i < seen.len() && 0 <= j < seen[i].devices.len() && {
                let one = seen[i].devices[j];
                &&& one.device.model_info is Some
                &&& one.config_key == list[k].config_key && one.stable_id == list[k].stable_id
                &&& one.route == list[k].route && one.device.online == list[k].online
            },
        forall|m: int|
            k < m < list.len() ==> !crate::text::text_precedes((#[trigger] list[m]).stable_id, list[k].stable_id) && (
            list[m].stable_id == list[k].stable_id ==> !crate::text::text_precedes(
                list[m].model_key,
                list[k].model_key,
            )),
{
    crate::sort::law_sorting_only_rearranges(kept_of_all(seen), list);
    assert(list.contains(list[k]));
    lemma_from_seen(seen, list[k]);
    assert forall|m: int| k < m < list.len() implies !crate::text::text_precedes(
        (#[trigger] list[m]).stable_id,
        list[k].stable_id,
    ) && (list[m].stable_id == list[k].stable_id ==> !crate::text::text_precedes(
        list[m].model_key,
        list[k].model_key,
    )) by {
        crate::sort::law_sorted_by_identity_then_model(kept_of_all(seen), list, k, m);
    }
}

proof fn lemma_from_seen(seen: Seq<SeenReceiverView>, dev: AgentDeviceView)
    requires
        kept_of_all(seen).contains(dev),
    ensures
        exists|i: int, j: int|
            #![trigger seen[i].devices[j]]
            0 <= i < seen.len() && 0 <= j < seen[i].devices.len() && seen[i].devices[j].device.model_info is Some && kept(
                seen[i].devices[j],
            ) == dev,
    decreases seen.len(),
{
    let (rest, last) = (seen.drop_last(), seen.last());
    lemma_add_contains(kept_of_all(rest), kept_of(last.devices), dev);
    if kept_of_all(rest).contains(dev) {
        lemma_from_seen(rest, dev);
        let (i, j) = choose|i: int, j: int|
            #![trigger rest[i].devices[j]]
            0 <= i < rest.len() && 0 <= j < rest[i].devices.len() && rest[i].devices[j].device.model_info is Some && kept(
                rest[i].devices[j],
            ) == dev;
        assert(seen[i].devices[j] == rest[i].devices[j]);
    } else {
        let j = lemma_from_devices(last.devices, dev);
        assert(seen[seen.len() - 1].devices[j] == last.devices[j]);
    }
}

proof fn lemma_from_devices(devices: Seq<SeenDeviceView>, dev: AgentDeviceView) -> (j: int)
    requires
        kept_of(devices).contains(dev),
    ensures
        0 <= j < devices.len(),
        devices[j].device.model_info is Some,
        kept(devices[j]) == dev,
    decreases devices.len(),
{
    let before = kept_of(devices.drop_last());
    lemma_push_contains(before, kept(devices.last()));
    if before.contains(dev) {
        let j = lemma_from_devices(devices.drop_last(), dev);
        assert(devices.drop_last()[j] == devices[j]);
        j
    } else {
        devices.len() - 1
    }
}

/// Exactly those devices are written to at a refresh that are online and have a
/// route, and are new, or were offline, or are due their confirming write, or
/// all are.
pub proof fn law_written_exactly_when_due(
    prev: Seq<AgentDeviceView>,
    next: Seq<AgentDeviceView>,
    followup: Seq<Seq<char>>,
    reapply_all: bool,
    i: usize,
)
    requires
        next.len() <= usize::MAX,
    ensures
        planned_places(prev, next, followup, reapply_all).contains(i) <==> i < next.len() && {
            let dev = next[i as int];
            let known_online = exists|k: int|
                0 <= k < prev.len() && (#[trigger] prev[k]).stable_id == dev.stable_id && prev[k].online && forall|j: int|
                    0 <= j < k ==> (#[trigger] prev[j]).stable_id != dev.stable_id;
            &&& dev.online && dev.route is Some
            &&& reapply_all || !known_online || followup.contains(dev.config_key)
        },
{
    let a = reapply_places(prev, next, reapply_all);
    let b = indices(next.len()).filter(confirm_needed(prev, next, followup, reapply_all));
    crate::seqs::lemma_indices_contain(next.len(), reapply_needed(prev, next, reapply_all));
    crate::seqs::lemma_indices_contain(next.len(), confirm_needed(prev, next, followup, reapply_all));
    lemma_add_contains(a, b, i);
    assert(a.contains(i) <==> i < next.len() && needs_reapply(prev, next[i as int], reapply_all));
    if i < next.len() {
        let id = next[i as int].stable_id;
        if exists|k: int|
            0 <= k < prev.len() && (#[trigger] prev[k]).stable_id == id && prev[k].online && forall|j: int|
                0 <= j < k ==> (#[trigger] prev[j]).stable_id != id
        {
            let k = choose|k: int|
                0 <= k < prev.len() && (#[trigger] prev[k]).stable_id == id && prev[k].online && forall|j: int|
                    0 <= j < k ==> (#[trigger] prev[j]).stable_id != id;
            assert(is_first_with_id(prev, id, k));
        }
        if was_online(prev, id) {
            let k = choose|k: int| #[trigger] is_first_with_id(prev, id, k) && prev[k].online;
            assert(prev[k].stable_id == id && prev[k].online);
        }
    }
}

/// No device is written to twice at one refresh.
pub proof fn law_no_device_is_written_twice(
    prev: Seq<AgentDeviceView>,
    next: Seq<AgentDeviceView>,
    followup: Seq<Seq<char>>,
    reapply_all: bool,
)
    requires
        next.len() <= usize::MAX,
    ensures
        planned_places(prev, next, followup, reapply_all).no_duplicates(),
{
    let (f, g) = (reapply_needed(prev, next, reapply_all), confirm_needed(prev, next, followup, reapply_all));
    let (a, b) = (indices(next.len()).filter(f), indices(next.len()).filter(g));
    crate::seqs::lemma_indices_contain(next.len(), f);
    crate::seqs::lemma_indices_contain(next.len(), g);
    lemma_filtered_indices_differ(next.len(), f);
    lemma_filtered_indices_differ(next.len(), g);
    let all = planned_places(prev, next, followup, reapply_all);
    assert forall|i: int, j: int| 0 <= i < j < all.len() implies all[i] != all[j] by {
        if j < a.len() {
            assert(a[i] != a[j]);
        } else if i >= a.len() {
            assert(b[i - a.len()] != b[j - a.len()]);
        } else {
            assert(a.contains(a[i]));
            assert(b.contains(b[j - a.len()]));
        }
    }
}

proof fn lemma_filtered_indices_differ(n: nat, keep: spec_fn(usize) -> bool)
    requires
        n <= usize::MAX,
    ensures
        indices(n).filter(keep).no_duplicates(),
    decreases n,
{
    if n == 0 {
        crate::seqs::lemma_indices_none(keep);
    } else {
        let m = (n - 1) as nat;
        lemma_filtered_indices_differ(m, keep);
        lemma_indices_step(m, keep);
        crate::seqs::lemma_indices_contain(m, keep);
        let s = indices(m).filter(keep);
        assert forall|i: int| 0 <= i < s.len() implies #[trigger] s[i] != m as usize by {
            assert(s.contains(s[i]));
        }
    }
}

/// A confirming write is owed after a refresh to exactly the devices that were
/// written to and whose identity was not known before.
pub proof fn law_confirm_is_owed_to_new_devices(
    prev: Seq<AgentDeviceView>,
    next: Seq<AgentDeviceView>,
    reapply_all: bool,
    keys: Seq<Seq<char>>,
    key: Seq<char>,
)
    requires
        lists_first_sightings(prev, next, reapply_all, keys),
    ensures
        keys.contains(key) <==> exists|i: int|
            0 <= i < next.len() && (#[trigger] next[i]).config_key == key && next[i].online && next[i].route is Some && (
            forall|k: int| 0 <= k < prev.len() ==> (#[trigger] prev[k]).stable_id != next[i].stable_id),
        keys.no_duplicates(),
{
    if keys.contains(key) {
        assert(is_first_sighting(prev, next, reapply_all, key));
        let i = choose|i: int|
            0 <= i < next.len() && (#[trigger] next[i]).config_key == key && needs_reapply(prev, next[i], reapply_all)
                && !knows_id(prev, next[i].stable_id);
        assert(next[i].config_key == key && next[i].online && next[i].route is Some);
        assert(forall|k: int| 0 <= k < prev.len() ==> (#[trigger] prev[k]).stable_id != next[i].stable_id);
    }
    if exists|i: int|
        0 <= i < next.len() && (#[trigger] next[i]).config_key == key && next[i].online && next[i].route is Some && (
        forall|k: int| 0 <= k < prev.len() ==> (#[trigger] prev[k]).stable_id != next[i].stable_id)
    {
        let i = choose|i: int|
            0 <= i < next.len() && (#[trigger] next[i]).config_key == key && next[i].online && next[i].route is Some && (
            forall|k: int| 0 <= k < prev.len() ==> (#[trigger] prev[k]).stable_id != next[i].stable_id);
        assert(!knows_id(prev, next[i].stable_id));
        assert(!was_online(prev, next[i].stable_id));
        assert(is_first_sighting(prev, next, reapply_all, key));
    }
}

/// The snapshot that is served holds the receivers and their devices as they were
/// seen.
pub proof fn law_snapshot_is_served_as_seen(seen: Seq<SeenReceiverView>, i: int, j: int)
    requires
        0 <= i < seen.len(),
    ensures
        plain(seen).len() == seen.len(),
        plain(seen)[i].receiver == seen[i].receiver,
        plain(seen)[i].paired.len() == seen[i].devices.len(),
        0 <= j < seen[i].devices.len() ==> plain(seen)[i].paired[j] == seen[i].devices[j].device,
{
}

/// The meaning of a device holds what the device holds.
pub proof fn law_device_means_what_it_holds(dev: AgentDevice, seen: SeenDevice)
    ensures
        ({
            let own = dev.deep_view();
            &&& own.config_key == dev.config_key@
            &&& own.model_key == dev.model_key@
            &&& own.stable_id == dev.stable_id@
            &&& own.route == dev.route.deep_view()
            &&& own.capabilities == dev.capabilities
            &&& own.online == dev.online
            &&& own.reachable() <==> dev.online && dev.route is Some
        }),
        ({
            let own = seen.deep_view();
            &&& own.config_key == seen.config_key@
            &&& own.model_key == seen.model_key@
            &&& own.stable_id == seen.stable_id@
            &&& own.route == seen.route.deep_view()
            &&& own.device == seen.device.deep_view()
        }),
{
}

/// The meaning of a write, of a request and of what is published holds what they
/// hold.
pub proof fn law_output_means_what_it_holds(
    write: DeviceWrite,
    request: PlanRequest,
    projection: HookProjection,
    publication: Publication,
    i: int,
)
    ensures
        write.deep_view().route == write.route.deep_view(),
        write.deep_view().change == write.change,
        request.deep_view().config_key == request.config_key@,
        request.deep_view().route == request.route.deep_view(),
        request.deep_view().app == request.app.deep_view(),
        projection.deep_view().key == projection.key.deep_view(),
        projection.deep_view().app == projection.app.deep_view(),
        HookMapsPlan::Empty.deep_view() is Empty,
        HookMapsPlan::Project(projection).deep_view() == HookMapsPlanView::Project(projection.deep_view()),
        publication.deep_view().hook_maps == publication.hook_maps.deep_view(),
        publication.deep_view().gestures == publication.gestures.deep_view(),
        publication.deep_view().capture.len() == publication.capture@.len(),
        0 <= i < publication.capture@.len() ==> publication.deep_view().capture[i]
            == publication.capture@[i].deep_view(),
{
}

/// The meaning of a receiver of a snapshot holds it and its devices, in order.
pub proof fn law_seen_receiver_means_what_it_holds(seen: SeenReceiver, i: int)
    ensures
        seen.deep_view().receiver == seen.receiver.deep_view(),
        seen.deep_view().devices.len() == seen.devices@.len(),
        0 <= i < seen.devices@.len() ==> seen.deep_view().devices[i] == seen.devices@[i].deep_view(),
{
}

} // verus!
