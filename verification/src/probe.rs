//! Probing a device: what is asked of it, and what its answers amount to.

use vstd::prelude::*;
use vstd::utf8::{decode_utf8, valid_utf8};
use hidpp::feature::CreatableFeature;
use hidpp::feature::unified_battery::v0::UnifiedBatteryFeatureV0;
use crate::cache::CacheOutcome;
use crate::device::{
    BatteryInfo, Capabilities, DeviceInventory, DeviceKind, DeviceModelInfo, DeviceModelInfoView, PairedDevice,
    ReceiverInfo,
};
use crate::value::Value;

verus! {

/// What a probe tells of a device. A field is `None` where the device lacks the feature or did not answer.
#[derive(Debug, PartialEq, Eq)]
pub struct ProbedFeatures {
    pub battery: Option<BatteryInfo>,
    pub model_info: Option<DeviceModelInfo>,
    pub kind: Option<DeviceKind>,
    pub capabilities: Option<Capabilities>,
    /// A read of the identity failed, so there may be more to it.
    pub identity_incomplete: bool,
}

/// The meaning of a [`ProbedFeatures`].
pub struct ProbedFeaturesView {
    pub battery: Option<BatteryInfo>,
    pub model_info: Option<DeviceModelInfoView>,
    pub kind: Option<DeviceKind>,
    pub capabilities: Option<Capabilities>,
    pub identity_incomplete: bool,
}

impl DeepView for ProbedFeatures {
    type V = ProbedFeaturesView;

    open spec fn deep_view(&self) -> ProbedFeaturesView {
        ProbedFeaturesView {
            battery: self.battery.deep_view(),
            model_info: self.model_info.deep_view(),
            kind: self.kind.deep_view(),
            capabilities: self.capabilities.deep_view(),
            identity_incomplete: self.identity_incomplete.deep_view(),
        }
    }
}

impl Value for ProbedFeatures {
    fn same(&self, other: &Self) -> (r: bool) {
        self.battery.same(&other.battery)
            && self.model_info.same(&other.model_info)
            && self.kind.same(&other.kind)
            && self.capabilities.same(&other.capabilities)
            && self.identity_incomplete.same(&other.identity_incomplete)
    }

    fn copy(&self) -> (r: Self) {
        ProbedFeatures {
            battery: self.battery.copy(),
            model_info: self.model_info.copy(),
            kind: self.kind.copy(),
            capabilities: self.capabilities.copy(),
            identity_incomplete: self.identity_incomplete.copy(),
        }
    }
}

/// What a probe asks next.
#[derive(Clone, Copy, Debug, PartialEq, Eq, Structural)]
pub enum ProbeStep {
    /// Open the device.
    Open,
    /// Its table of features.
    Features,
    /// What its wheel can do.
    Wheel,
    /// Its battery, by the index of that feature.
    Battery(u8),
    /// Its identity.
    Info,
    /// Its serial number.
    Serial,
    /// Its type.
    Kind,
    Done,
}

impl DeepView for ProbeStep {
    type V = ProbeStep;

    open spec fn deep_view(&self) -> ProbeStep {
        *self
    }
}

impl Value for ProbeStep {
    fn same(&self, other: &Self) -> (r: bool) {
        *self == *other
    }

    fn copy(&self) -> (r: Self) {
        *self
    }
}

/// A probe under way: what it asks next, and what it knows so far.
#[derive(Debug, PartialEq, Eq)]
pub struct ProbeSession {
    pub step: ProbeStep,
    pub features: ProbedFeatures,
    /// The index of the battery feature, for reading the battery again.
    pub battery_index: Option<u8>,
}

/// The meaning of a [`ProbeSession`].
pub struct ProbeSessionView {
    pub step: ProbeStep,
    pub features: ProbedFeaturesView,
    pub battery_index: Option<u8>,
}

impl DeepView for ProbeSession {
    type V = ProbeSessionView;

    open spec fn deep_view(&self) -> ProbeSessionView {
        ProbeSessionView {
            step: self.step.deep_view(),
            features: self.features.deep_view(),
            battery_index: self.battery_index.deep_view(),
        }
    }
}

impl Value for ProbeSession {
    fn same(&self, other: &Self) -> (r: bool) {
        self.step.same(&other.step)
            && self.features.same(&other.features)
            && self.battery_index.same(&other.battery_index)
    }

    fn copy(&self) -> (r: Self) {
        ProbeSession {
            step: self.step.copy(),
            features: self.features.copy(),
            battery_index: self.battery_index.copy(),
        }
    }
}

/// The id of the feature that reports the battery.
pub const UNIFIED_BATTERY_ID: u16 = 0x1004;

/// The constant `ID` of hidpp's `UnifiedBatteryFeatureV0`, as its
/// `CreatableFeature` impl sets it: the id of the unified battery feature.
#[verifier::external_body]
fn unified_battery_id() -> (r: u16)
    ensures
        r == UNIFIED_BATTERY_ID,
{
    UnifiedBatteryFeatureV0::ID
}

/// `ids[i]` is the first entry of the battery feature.
pub open spec fn is_battery_entry(ids: Seq<u16>, i: int) -> bool {
    &&& 0 <= i < ids.len()
    &&& ids[i] == UNIFIED_BATTERY_ID
    &&& forall|j: int| 0 <= j < i ==> ids[j] != UNIFIED_BATTERY_ID
}

/// `r` is the index of the battery feature. The table leaves out the feature at
/// index zero, so its first entry has the index one.
pub open spec fn is_battery_index(ids: Seq<u16>, r: Option<u8>) -> bool {
    match r {
        Some(index) => index >= 1 && is_battery_entry(ids, index - 1),
        None => forall|i: int| #[trigger] is_battery_entry(ids, i) ==> i + 1 > u8::MAX,
    }
}

/// The index of the battery feature, where the table has one that fits.
pub open spec fn battery_index_of(ids: Seq<u16>) -> Option<u8> {
    choose|r: Option<u8>| is_battery_index(ids, r)
}

/// The index of the battery feature in a table of features.
pub fn battery_feature_index(ids: &Vec<u16>) -> (r: Option<u8>)
    ensures
        is_battery_index(ids@, r),
        r == battery_index_of(ids@),
{
    let r = find_battery(ids);
    proof {
        lemma_battery_index_unique(ids@, r, battery_index_of(ids@));
    }
    r
}

fn find_battery(ids: &Vec<u16>) -> (r: Option<u8>)
    ensures
        is_battery_index(ids@, r),
{
    let id: u16 = unified_battery_id();
    let mut i: usize = 0;
    while i < ids.len()
        invariant
            i <= ids@.len(),
            id == UNIFIED_BATTERY_ID,
            forall|j: int| 0 <= j < i ==> ids@[j] != UNIFIED_BATTERY_ID,
        decreases ids@.len() - i,
    {
        if ids[i] == id {
            assert(is_battery_entry(ids@, i as int));
            if i < u8::MAX as usize {
                return Some((i + 1) as u8);
            }
            proof {
                assert forall|j: int| #[trigger] is_battery_entry(ids@, j) implies j + 1 > u8::MAX by {
                    if j < i {
                        assert(ids@[j] != UNIFIED_BATTERY_ID);
                    }
                }
            }
            return None;
        }
        i += 1;
    }
    None
}

/// A table has one battery index at most.
pub proof fn lemma_battery_index_unique(ids: Seq<u16>, a: Option<u8>, b: Option<u8>)
    requires
        is_battery_index(ids, a),
        is_battery_index(ids, b),
    ensures
        a == b,
{
    if let Some(x) = a {
        assert(is_battery_entry(ids, x - 1));
        if let Some(y) = b {
            assert(is_battery_entry(ids, y - 1));
            if x < y {
                assert(ids[x - 1] != UNIFIED_BATTERY_ID);
            } else if y < x {
                assert(ids[y - 1] != UNIFIED_BATTERY_ID);
            }
        }
    } else if let Some(y) = b {
        assert(is_battery_entry(ids, y - 1));
    }
}

/// The answer to what a probe asked.
pub enum ProbeReply {
    /// Whether the device could be opened.
    Opened(bool),
    /// The table of features could not be read.
    NoAnswer,
    /// The device has no table of features.
    NoTable,
    /// The table of features, and the capabilities that follow from it.
    Table(Vec<u16>, Capabilities),
    /// The device has no wheel that can be asked.
    WheelAbsent,
    WheelFailed,
    /// Whether the wheel can be inverted.
    Wheel(bool),
    Battery(Option<BatteryInfo>),
    /// The device does not tell its identity.
    InfoAbsent,
    InfoFailed,
    /// The identity, and whether there is a serial number to ask for.
    Info(DeviceModelInfo, bool),
    SerialFailed,
    /// The serial number in its normal form, where it has one.
    Serial(Option<String>),
    /// The type, where the device tells it.
    Kind(Option<DeviceKind>),
}

/// `reply` answers what is asked at `step`.
pub open spec fn answers(step: ProbeStep, reply: ProbeReply) -> bool {
    match reply {
        ProbeReply::Opened(_) => step == ProbeStep::Open,
        ProbeReply::NoAnswer | ProbeReply::NoTable | ProbeReply::Table(_, _) => step == ProbeStep::Features,
        ProbeReply::WheelAbsent | ProbeReply::WheelFailed | ProbeReply::Wheel(_) => step == ProbeStep::Wheel,
        ProbeReply::Battery(_) => step is Battery,
        ProbeReply::InfoAbsent | ProbeReply::InfoFailed | ProbeReply::Info(_, _) => step == ProbeStep::Info,
        ProbeReply::SerialFailed | ProbeReply::Serial(_) => step == ProbeStep::Serial,
        ProbeReply::Kind(_) => step == ProbeStep::Kind,
    }
}

/// Nothing is known of a device.
pub open spec fn nothing_probed() -> ProbedFeaturesView {
    ProbedFeaturesView { battery: None, model_info: None, kind: None, capabilities: None, identity_incomplete: false }
}

/// What follows once it is known what the wheel can do.
pub open spec fn after_wheel(battery_index: Option<u8>) -> ProbeStep {
    match battery_index {
        Some(index) => ProbeStep::Battery(index),
        None => ProbeStep::Info,
    }
}

/// The capabilities of a device whose wheel can be inverted, or cannot.
pub open spec fn with_inversion(can: Option<Capabilities>, invert: bool) -> Option<Capabilities> {
    match can {
        Some(can) => Some(Capabilities { scroll_inversion: invert, ..can }),
        None => None,
    }
}

/// What a probe makes of an answer. A wheel that does not answer counts as one
/// that cannot be inverted.
pub open spec fn answered(s: ProbeSessionView, reply: ProbeReply) -> ProbeSessionView {
    match reply {
        ProbeReply::Opened(ok) => ProbeSessionView {
            step: if ok {
                ProbeStep::Features
            } else {
                ProbeStep::Done
            },
            ..s
        },
        ProbeReply::NoAnswer => ProbeSessionView { step: ProbeStep::Done, ..s },
        ProbeReply::NoTable => ProbeSessionView { step: ProbeStep::Info, ..s },
        ProbeReply::Table(ids, capabilities) => ProbeSessionView {
            step: ProbeStep::Wheel,
            features: ProbedFeaturesView { capabilities: Some(capabilities), ..s.features },
            battery_index: battery_index_of(ids@),
        },
        ProbeReply::WheelAbsent => ProbeSessionView { step: after_wheel(s.battery_index), ..s },
        ProbeReply::WheelFailed => ProbeSessionView {
            step: after_wheel(s.battery_index),
            features: ProbedFeaturesView {
                capabilities: with_inversion(s.features.capabilities, false),
                ..s.features
            },
            ..s
        },
        ProbeReply::Wheel(invert) => ProbeSessionView {
            step: after_wheel(s.battery_index),
            features: ProbedFeaturesView {
                capabilities: with_inversion(s.features.capabilities, invert),
                ..s.features
            },
            ..s
        },
        ProbeReply::Battery(battery) => ProbeSessionView {
            step: ProbeStep::Info,
            features: ProbedFeaturesView { battery, ..s.features },
            ..s
        },
        ProbeReply::InfoAbsent => ProbeSessionView { step: ProbeStep::Kind, ..s },
        ProbeReply::InfoFailed => ProbeSessionView {
            step: ProbeStep::Kind,
            features: ProbedFeaturesView { identity_incomplete: true, ..s.features },
            ..s
        },
        ProbeReply::Info(info, has_serial) => ProbeSessionView {
            step: if has_serial {
                ProbeStep::Serial
            } else {
                ProbeStep::Kind
            },
            features: ProbedFeaturesView {
                model_info: Some(DeviceModelInfoView { serial_number: None, ..info.deep_view() }),
                ..s.features
            },
            ..s
        },
        ProbeReply::SerialFailed => ProbeSessionView {
            step: ProbeStep::Kind,
            features: ProbedFeaturesView { identity_incomplete: true, ..s.features },
            ..s
        },
        ProbeReply::Serial(serial) => ProbeSessionView {
            step: ProbeStep::Kind,
            features: ProbedFeaturesView {
                model_info: match s.features.model_info {
                    Some(info) => Some(DeviceModelInfoView { serial_number: serial.deep_view(), ..info }),
                    None => None,
                },
                ..s.features
            },
            ..s
        },
        ProbeReply::Kind(kind) => ProbeSessionView {
            step: ProbeStep::Done,
            features: ProbedFeaturesView { kind, ..s.features },
            ..s
        },
    }
}

impl ProbedFeatures {
    /// Nothing is known of a device.
    pub fn new() -> (r: Self)
        ensures
            r.deep_view() == nothing_probed(),
    {
        ProbedFeatures { battery: None, model_info: None, kind: None, capabilities: None, identity_incomplete: false }
    }
}

impl ProbeSession {
    /// A probe that has asked nothing yet.
    pub fn new() -> (r: Self)
        ensures
            r.deep_view() == (ProbeSessionView {
                step: ProbeStep::Open,
                features: nothing_probed(),
                battery_index: None,
            }),
    {
        ProbeSession { step: ProbeStep::Open, features: ProbedFeatures::new(), battery_index: None }
    }

    /// Takes in the answer to what was asked, and goes on to what is asked next.
    pub fn answer(&mut self, reply: ProbeReply)
        requires
            answers(old(self).step, reply),
        ensures
            final(self).deep_view() == answered(old(self).deep_view(), reply),
    {
        match reply {
            ProbeReply::Opened(ok) => {
                self.step = if ok {
                    ProbeStep::Features
                } else {
                    ProbeStep::Done
                };
            },
            ProbeReply::NoAnswer => {
                self.step = ProbeStep::Done;
            },
            ProbeReply::NoTable => {
                self.step = ProbeStep::Info;
            },
            ProbeReply::Table(ids, capabilities) => {
                self.battery_index = battery_feature_index(&ids);
                self.features.capabilities = Some(capabilities);
                self.step = ProbeStep::Wheel;
            },
            ProbeReply::WheelAbsent => {
                self.pass_wheel();
            },
            ProbeReply::WheelFailed => {
                self.set_inversion(false);
                self.pass_wheel();
            },
            ProbeReply::Wheel(invert) => {
                self.set_inversion(invert);
                self.pass_wheel();
            },
            ProbeReply::Battery(battery) => {
                self.features.battery = battery;
                self.step = ProbeStep::Info;
            },
            ProbeReply::InfoAbsent => {
                self.step = ProbeStep::Kind;
            },
            ProbeReply::InfoFailed | ProbeReply::SerialFailed => {
                self.features.identity_incomplete = true;
                self.step = ProbeStep::Kind;
            },
            ProbeReply::Info(info, has_serial) => {
                let mut info = info;
                info.serial_number = None;
                self.features.model_info = Some(info);
                self.step = if has_serial {
                    ProbeStep::Serial
                } else {
                    ProbeStep::Kind
                };
            },
            ProbeReply::Serial(serial) => {
                let mut taken: Option<DeviceModelInfo> = None;
                std::mem::swap(&mut taken, &mut self.features.model_info);
                if let Some(info) = taken {
                    let mut info = info;
                    info.serial_number = serial;
                    self.features.model_info = Some(info);
                }
                self.step = ProbeStep::Kind;
            },
            ProbeReply::Kind(kind) => {
                self.features.kind = kind;
                self.step = ProbeStep::Done;
            },
        }
    }

    fn set_inversion(&mut self, invert: bool)
        ensures
            final(self).deep_view() == (ProbeSessionView {
                features: ProbedFeaturesView {
                    capabilities: with_inversion(old(self).features.capabilities, invert),
                    ..old(self).features.deep_view()
                },
                ..old(self).deep_view()
            }),
    {
        if let Some(can) = self.features.capabilities {
            self.features.capabilities = Some(
                Capabilities { hires_wheel: can.hires_wheel, scroll_inversion: invert, panels: can.panels },
            );
        }
    }

    fn pass_wheel(&mut self)
        ensures
            final(self).deep_view() == (ProbeSessionView {
                step: after_wheel(old(self).battery_index),
                ..old(self).deep_view()
            }),
    {
        self.step = match self.battery_index {
            Some(index) => ProbeStep::Battery(index),
            None => ProbeStep::Info,
        };
    }
}

/// How many answers a probe takes at most from `step` on.
pub open spec fn answers_left(step: ProbeStep) -> nat {
    match step {
        ProbeStep::Open => 7,
        ProbeStep::Features => 6,
        ProbeStep::Wheel => 5,
        ProbeStep::Battery(_) => 4,
        ProbeStep::Info => 3,
        ProbeStep::Serial => 2,
        ProbeStep::Kind => 1,
        ProbeStep::Done => 0,
    }
}

/// A probe comes to an end: with every answer there is less left to ask.
pub proof fn law_probe_ends(s: ProbeSessionView, reply: ProbeReply)
    requires
        answers(s.step, reply),
    ensures
        answers_left(answered(s, reply).step) < answers_left(s.step),
{
}

/// The identity is incomplete after a failed read of it, and only then.
pub proof fn law_incomplete_after_a_failed_read(s: ProbeSessionView, reply: ProbeReply)
    requires
        answers(s.step, reply),
    ensures
        answered(s, reply).features.identity_incomplete == (s.features.identity_incomplete
            || reply is InfoFailed || reply is SerialFailed),
{
}

/// A device that does not open, or does not tell its features, leaves nothing
/// known of it.
pub proof fn law_no_answer_means_nothing_known(s: ProbeSessionView, reply: ProbeReply)
    requires
        s.features == nothing_probed(),
        reply == ProbeReply::Opened(false) || reply is NoAnswer,
    ensures
        answered(s, reply).step == ProbeStep::Done,
        answered(s, reply).features == nothing_probed(),
{
}

/// What probing one node came to.
#[derive(Debug, PartialEq, Eq)]
pub struct NodeProbe {
    pub inventory: Option<DeviceInventory>,
    pub outcomes: Vec<CacheOutcome>,
    /// Nothing is known to be missing.
    pub complete: bool,
    /// The node answered, so its inventory counts.
    pub healthy: bool,
}

impl NodeProbe {
    /// The node could not be probed.
    pub fn failed() -> (r: Self)
        ensures
            r.inventory is None,
            r.outcomes@.len() == 0,
            !r.complete,
            !r.healthy,
    {
        NodeProbe { inventory: None, outcomes: Vec::new(), complete: false, healthy: false }
    }
}

/// Puts the probe of a Bolt receiver together from its slots. It is complete,
/// and counts, only if the receiver says how many devices are paired and so many
/// slots were readable: else devices would seem to be gone that are not.
pub fn assemble_bolt_probe(
    receiver: ReceiverInfo,
    paired_count: Option<u8>,
    slots: Vec<(PairedDevice, CacheOutcome)>,
) -> (r: NodeProbe)
    ensures
        r.complete == (paired_count matches Some(count) && count == slots@.len()),
        r.healthy == r.complete,
        r.inventory matches Some(inventory) && inventory.receiver == receiver && inventory.paired@.len()
            == slots@.len() && forall|i: int| 0 <= i < slots@.len() ==> #[trigger] inventory.paired@[i] == slots@[i].0,
        r.outcomes@.len() == slots@.len(),
        forall|i: int| 0 <= i < slots@.len() ==> #[trigger] r.outcomes@[i] == slots@[i].1,
{
    let n: usize = slots.len();
    let complete = match paired_count {
        Some(count) => count as usize == n,
        None => false,
    };
    let ghost all = slots@;
    let mut rest = slots;
    let mut paired_back: Vec<PairedDevice> = Vec::new();
    let mut outcomes_back: Vec<CacheOutcome> = Vec::new();
    while rest.len() > 0
        invariant
            rest@.len() + paired_back@.len() == all.len(),
            rest@ == all.take(rest@.len() as int),
            outcomes_back@.len() == paired_back@.len(),
            forall|k: int|
                0 <= k < paired_back@.len() ==> (#[trigger] paired_back@[k]) == all[all.len() - 1 - k].0,
            forall|k: int|
                0 <= k < outcomes_back@.len() ==> (#[trigger] outcomes_back@[k]) == all[all.len() - 1 - k].1,
        decreases rest@.len(),
    {
        match rest.pop() {
            Some((device, outcome)) => {
                paired_back.push(device);
                outcomes_back.push(outcome);
            },
            None => {},
        }
        assert(rest@ =~= all.take(rest@.len() as int));
    }
    let mut paired: Vec<PairedDevice> = Vec::new();
    let mut outcomes: Vec<CacheOutcome> = Vec::new();
    let ghost (pb, ob) = (paired_back@, outcomes_back@);
    while paired_back.len() > 0
        invariant
            pb.len() == all.len(),
            ob.len() == all.len(),
            paired_back@.len() == outcomes_back@.len(),
            paired_back@.len() + paired@.len() == all.len(),
            outcomes@.len() == paired@.len(),
            paired_back@ == pb.take(paired_back@.len() as int),
            outcomes_back@ == ob.take(outcomes_back@.len() as int),
            forall|k: int| 0 <= k < all.len() ==> (#[trigger] pb[k]) == all[all.len() - 1 - k].0,
            forall|k: int| 0 <= k < all.len() ==> (#[trigger] ob[k]) == all[all.len() - 1 - k].1,
            forall|k: int| 0 <= k < paired@.len() ==> (#[trigger] paired@[k]) == all[k].0,
            forall|k: int| 0 <= k < outcomes@.len() ==> (#[trigger] outcomes@[k]) == all[k].1,
        decreases paired_back@.len(),
    {
        if let Some(device) = paired_back.pop() {
            if let Some(outcome) = outcomes_back.pop() {
                proof {
                    let k = paired_back@.len() as int;
                    assert(device == pb[k]);
                    assert(outcome == ob[k]);
                }
                paired.push(device);
                outcomes.push(outcome);
            }
        }
        assert(paired_back@ =~= pb.take(paired_back@.len() as int));
        assert(outcomes_back@ =~= ob.take(outcomes_back@.len() as int));
    }
    NodeProbe {
        inventory: Some(DeviceInventory { receiver, paired }),
        outcomes,
        complete,
        healthy: complete,
    }
}

/// std's `String::from_utf8`: the text whose UTF-8 encoding is `bytes`; `None`
/// if they are not the encoding of any text.
#[verifier::external_body]
fn text_of(bytes: Vec<u8>) -> (r: Option<String>)
    ensures
        match r {
            Some(text) => valid_utf8(bytes@) && text@ == decode_utf8(bytes@),
            None => !valid_utf8(bytes@),
        },
{
    String::from_utf8(bytes).ok()
}

/// The bytes of the name in an answer: so many as the second byte says, as far
/// as there are so many.
pub open spec fn codename_bytes(response: Seq<u8>) -> Seq<u8> {
    let end = 2 + response[1];
    response.subrange(
        2,
        if end <= response.len() {
            end
        } else {
            response.len() as int
        },
    )
}

/// The name of a device in the answer of a Unifying receiver.
pub fn parse_codename_unifying(response: &[u8]) -> (r: Option<String>)
    ensures
        match r {
            Some(name) => {
                &&& response@.len() >= 2
                &&& valid_utf8(codename_bytes(response@))
                &&& name@ == decode_utf8(codename_bytes(response@))
            },
            None => response@.len() < 2 || !valid_utf8(codename_bytes(response@)),
        },
{
    if response.len() < 2 {
        return None;
    }
    let told: usize = 2 + response[1] as usize;
    let end: usize = if told <= response.len() {
        told
    } else {
        response.len()
    };
    let mut name: Vec<u8> = Vec::new();
    let mut i: usize = 2;
    while i < end
        invariant
            2 <= i <= end <= response@.len(),
            name@ == response@.subrange(2, i as int),
        decreases end - i,
    {
        name.push(response[i]);
        assert(response@.subrange(2, i + 1) =~= response@.subrange(2, i as int).push(response@[i as int]));
        i += 1;
    }
    assert(name@ =~= codename_bytes(response@));
    text_of(name)
}

/// Every part of what a probe knows comes from the answer to the question about
/// it, whatever the other answers are. A wheel that does not answer cannot be
/// inverted, one that is absent leaves the capabilities alone.
pub proof fn law_each_answer_tells_its_part(s: ProbeSessionView, reply: ProbeReply)
    requires
        answers(s.step, reply),
    ensures
        ({
            let (before, now) = (s.features, answered(s, reply).features);
            &&& now.battery == match reply {
                ProbeReply::Battery(battery) => battery,
                _ => before.battery,
            }
            &&& now.kind == match reply {
                ProbeReply::Kind(kind) => kind,
                _ => before.kind,
            }
            &&& match reply {
                ProbeReply::Table(_, can) => now.capabilities == Some(can),
                ProbeReply::Wheel(_) | ProbeReply::WheelFailed => {
                    &&& now.capabilities is Some <==> before.capabilities is Some
                    &&& before.capabilities is Some ==> {
                        let (was, can) = (before.capabilities->0, now.capabilities->0);
                        &&& can.hires_wheel == was.hires_wheel
                        &&& can.panels == was.panels
                        &&& can.scroll_inversion <==> reply == ProbeReply::Wheel(true)
                    }
                },
                _ => now.capabilities == before.capabilities,
            }
            &&& match reply {
                ProbeReply::Info(info, _) => {
                    &&& now.model_info is Some
                    &&& now.model_info->0.serial_number is None
                    &&& now.model_info->0 == (DeviceModelInfoView { serial_number: None, ..info.deep_view() })
                },
                ProbeReply::Serial(serial) => {
                    &&& now.model_info is Some <==> before.model_info is Some
                    &&& before.model_info is Some ==> now.model_info->0.serial_number == serial.deep_view()
                        && now.model_info->0 == (DeviceModelInfoView {
                        serial_number: serial.deep_view(),
                        ..before.model_info->0
                    })
                },
                _ => now.model_info == before.model_info,
            }
            &&& now.identity_incomplete <==> before.identity_incomplete || reply is InfoFailed || reply is SerialFailed
        }),
{
}

/// A probe asks for the features, the wheel, the battery if the device has one,
/// the identity, the serial number if there is one, and the type, in this order.
/// It goes on over what is absent or fails, and ends early only if the device
/// does not open or does not answer for its features.
pub proof fn law_probe_asks_in_order(s: ProbeSessionView, reply: ProbeReply)
    requires
        answers(s.step, reply),
    ensures
        ({
            let now = answered(s, reply);
            &&& s.step is Open ==> now.step == (if reply == ProbeReply::Opened(true) {
                ProbeStep::Features
            } else {
                ProbeStep::Done
            })
            &&& s.step is Features ==> now.step == (if reply is Table {
                ProbeStep::Wheel
            } else if reply is NoTable {
                ProbeStep::Info
            } else {
                ProbeStep::Done
            })
            &&& s.step is Wheel && s.battery_index is Some ==> now.step == ProbeStep::Battery(s.battery_index->0)
            &&& s.step is Wheel && s.battery_index is None ==> now.step == ProbeStep::Info
            &&& s.step is Battery ==> now.step == ProbeStep::Info
            &&& s.step is Info ==> now.step == (if reply is Info && reply->Info_1 {
                ProbeStep::Serial
            } else {
                ProbeStep::Kind
            })
            &&& s.step is Serial ==> now.step == ProbeStep::Kind
            &&& s.step is Kind ==> now.step == ProbeStep::Done
            &&& !(reply is Table) ==> now.battery_index == s.battery_index
        }),
{
}

/// Every question that is asked can be answered by what it asks for, by the lack
/// of it, and by a failure.
pub proof fn law_questions_can_be_answered(
    table: Vec<u16>,
    can: Capabilities,
    index: u8,
    battery: Option<BatteryInfo>,
    info: DeviceModelInfo,
    serial: Option<String>,
    kind: Option<DeviceKind>,
    flag: bool,
)
    ensures
        answers(ProbeStep::Open, ProbeReply::Opened(flag)),
        answers(ProbeStep::Features, ProbeReply::NoAnswer),
        answers(ProbeStep::Features, ProbeReply::NoTable),
        answers(ProbeStep::Features, ProbeReply::Table(table, can)),
        answers(ProbeStep::Wheel, ProbeReply::WheelAbsent),
        answers(ProbeStep::Wheel, ProbeReply::WheelFailed),
        answers(ProbeStep::Wheel, ProbeReply::Wheel(flag)),
        answers(ProbeStep::Battery(index), ProbeReply::Battery(battery)),
        answers(ProbeStep::Info, ProbeReply::InfoAbsent),
        answers(ProbeStep::Info, ProbeReply::InfoFailed),
        answers(ProbeStep::Info, ProbeReply::Info(info, flag)),
        answers(ProbeStep::Serial, ProbeReply::SerialFailed),
        answers(ProbeStep::Serial, ProbeReply::Serial(serial)),
        answers(ProbeStep::Kind, ProbeReply::Kind(kind)),
{
}

/// The battery is asked for under the first index, counted from one, at which the
/// table lists its feature, if that index fits.
pub proof fn law_battery_is_found_in_the_table(s: ProbeSessionView, ids: Vec<u16>, can: Capabilities, i: int)
    requires
        0 <= i < ids@.len(),
        ids@[i] == 0x1004,
        forall|j: int| 0 <= j < i ==> ids@[j] != 0x1004,
    ensures
        i < 255 ==> answered(s, ProbeReply::Table(ids, can)).battery_index == Some((i + 1) as u8),
        i >= 255 ==> answered(s, ProbeReply::Table(ids, can)).battery_index is None,
{
    assert(is_battery_entry(ids@, i));
    let r = if i < 255 {
        Some((i + 1) as u8)
    } else {
        None
    };
    assert forall|k: int| #[trigger] is_battery_entry(ids@, k) implies k == i by {
        if k < i {
            assert(ids@[k] != 0x1004);
        }
    }
    assert(is_battery_index(ids@, r));
    lemma_battery_index_unique(ids@, r, battery_index_of(ids@));
}

/// A device whose table does not list the battery feature is not asked for it.
pub proof fn law_absent_battery_is_not_asked_for(s: ProbeSessionView, ids: Vec<u16>, can: Capabilities)
    requires
        forall|j: int| 0 <= j < ids@.len() ==> ids@[j] != 0x1004,
    ensures
        answered(s, ProbeReply::Table(ids, can)).battery_index is None,
{
    assert(is_battery_index(ids@, None));
    lemma_battery_index_unique(ids@, None, battery_index_of(ids@));
}

/// A probe starts without knowing anything.
pub proof fn law_nothing_is_known_at_first()
    ensures
        nothing_probed().battery is None,
        nothing_probed().model_info is None,
        nothing_probed().kind is None,
        nothing_probed().capabilities is None,
        !nothing_probed().identity_incomplete,
{
}

/// The name in an answer starts behind the two leading bytes, and is as long as
/// the second of them says, or as long as the answer goes.
pub proof fn law_name_is_as_long_as_told(response: Seq<u8>, i: int)
    requires
        response.len() >= 2,
    ensures
        codename_bytes(response).len() <= response[1],
        codename_bytes(response).len() == response[1] || codename_bytes(response).len() + 2 == response.len(),
        codename_bytes(response).len() + 2 <= response.len(),
        0 <= i < codename_bytes(response).len() ==> codename_bytes(response)[i] == response[i + 2],
{
}

/// The meaning of a probe holds what the probe holds.
pub proof fn law_probe_means_what_it_holds(session: ProbeSession)
    ensures
        session.deep_view().step == session.step,
        session.deep_view().battery_index == session.battery_index,
        session.deep_view().features.battery == session.features.battery,
        session.deep_view().features.model_info == session.features.model_info.deep_view(),
        session.deep_view().features.kind == session.features.kind,
        session.deep_view().features.capabilities == session.features.capabilities,
        session.deep_view().features.identity_incomplete == session.features.identity_incomplete,
{
}

} // verus!
