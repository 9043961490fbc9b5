//! What an inventory snapshot says of receivers and devices.

use vstd::prelude::*;
use crate::value::Value;

verus! {

impl Value for [u8; 4] {
    fn same(&self, other: &Self) -> (r: bool) {
        let r = self[0] == other[0] && self[1] == other[1] && self[2] == other[2] && self[3] == other[3];
        proof {
            if r {
                assert(self.deep_view() =~= other.deep_view());
            } else {
                assert(self.deep_view()[0] == self[0] && self.deep_view()[1] == self[1]);
                assert(self.deep_view()[2] == self[2] && self.deep_view()[3] == self[3]);
                assert(other.deep_view()[0] == other[0] && other.deep_view()[1] == other[1]);
                assert(other.deep_view()[2] == other[2] && other.deep_view()[3] == other[3]);
            }
        }
        r
    }

    fn copy(&self) -> (r: Self) {
        *self
    }
}

impl Value for [u16; 3] {
    fn same(&self, other: &Self) -> (r: bool) {
        let r = self[0] == other[0] && self[1] == other[1] && self[2] == other[2];
        proof {
            if r {
                assert(self.deep_view() =~= other.deep_view());
            } else {
                assert(self.deep_view()[0] == self[0] && self.deep_view()[1] == self[1]);
                assert(self.deep_view()[2] == self[2]);
                assert(other.deep_view()[0] == other[0] && other.deep_view()[1] == other[1]);
                assert(other.deep_view()[2] == other[2]);
            }
        }
        r
    }

    fn copy(&self) -> (r: Self) {
        *self
    }
}

/// The marketing type of a device.
#[derive(Clone, Copy, Debug, PartialEq, Eq, Structural)]
pub enum DeviceKind {
    Unknown,
    Keyboard,
    Mouse,
    /// Any other type, by its HID++ code.
    Other(u8),
}

impl DeepView for DeviceKind {
    type V = DeviceKind;

    open spec fn deep_view(&self) -> DeviceKind {
        *self
    }
}

impl Value for DeviceKind {
    fn same(&self, other: &Self) -> (r: bool) {
        *self == *other
    }

    fn copy(&self) -> (r: Self) {
        *self
    }
}

/// What a device can be configured to do, from its feature table.
#[derive(Clone, Copy, Debug, PartialEq, Eq, Structural)]
pub struct Capabilities {
    /// The device has a high-resolution wheel.
    pub hires_wheel: bool,
    /// The wheel can be inverted on the device itself.
    pub scroll_inversion: bool,
    /// The remaining feature flags, one bit each.
    pub panels: u32,
}

impl DeepView for Capabilities {
    type V = Capabilities;

    open spec fn deep_view(&self) -> Capabilities {
        *self
    }
}

impl Value for Capabilities {
    fn same(&self, other: &Self) -> (r: bool) {
        *self == *other
    }

    fn copy(&self) -> (r: Self) {
        *self
    }
}

impl Capabilities {
    /// No capability at all.
    pub fn none() -> (r: Self)
        ensures
            r == (Capabilities { hires_wheel: false, scroll_inversion: false, panels: 0 }),
    {
        Capabilities { hires_wheel: false, scroll_inversion: false, panels: 0 }
    }
}

/// A battery reading.
#[derive(Clone, Copy, Debug, PartialEq, Eq, Structural)]
pub struct BatteryInfo {
    pub percentage: u8,
    /// The reported charge band, by its HID++ code.
    pub level: u8,
    /// The charging state, by its HID++ code.
    pub status: u8,
}

impl DeepView for BatteryInfo {
    type V = BatteryInfo;

    open spec fn deep_view(&self) -> BatteryInfo {
        *self
    }
}

impl Value for BatteryInfo {
    fn same(&self, other: &Self) -> (r: bool) {
        *self == *other
    }

    fn copy(&self) -> (r: Self) {
        *self
    }
}

/// The transports a device supports.
#[derive(Clone, Copy, Debug, PartialEq, Eq, Structural)]
pub struct DeviceTransports {
    pub usb: bool,
    pub equad: bool,
    pub btle: bool,
    pub bluetooth: bool,
}

impl DeepView for DeviceTransports {
    type V = DeviceTransports;

    open spec fn deep_view(&self) -> DeviceTransports {
        *self
    }
}

impl Value for DeviceTransports {
    fn same(&self, other: &Self) -> (r: bool) {
        *self == *other
    }

    fn copy(&self) -> (r: Self) {
        *self
    }
}

/// What a device says of its own identity.
#[derive(Debug, PartialEq, Eq)]
pub struct DeviceModelInfo {
    pub entity_count: u8,
    pub serial_number: Option<String>,
    pub unit_id: [u8; 4],
    pub transports: DeviceTransports,
    pub model_ids: [u16; 3],
    pub extended_model_id: u8,
}

/// The meaning of a [`DeviceModelInfo`].
pub struct DeviceModelInfoView {
    pub entity_count: u8,
    pub serial_number: Option<Seq<char>>,
    pub unit_id: Seq<u8>,
    pub transports: DeviceTransports,
    pub model_ids: Seq<u16>,
    pub extended_model_id: u8,
}

impl DeepView for DeviceModelInfo {
    type V = DeviceModelInfoView;

    open spec fn deep_view(&self) -> DeviceModelInfoView {
        DeviceModelInfoView {
            entity_count: self.entity_count.deep_view(),
            serial_number: self.serial_number.deep_view(),
            unit_id: self.unit_id.deep_view(),
            transports: self.transports.deep_view(),
            model_ids: self.model_ids.deep_view(),
            extended_model_id: self.extended_model_id.deep_view(),
        }
    }
}

impl Value for DeviceModelInfo {
    fn same(&self, other: &Self) -> (r: bool) {
        self.entity_count.same(&other.entity_count)
            && self.serial_number.same(&other.serial_number)
            && self.unit_id.same(&other.unit_id)
            && self.transports.same(&other.transports)
            && self.model_ids.same(&other.model_ids)
            && self.extended_model_id.same(&other.extended_model_id)
    }

    fn copy(&self) -> (r: Self) {
        DeviceModelInfo {
            entity_count: self.entity_count.copy(),
            serial_number: self.serial_number.copy(),
            unit_id: self.unit_id.copy(),
            transports: self.transports.copy(),
            model_ids: self.model_ids.copy(),
            extended_model_id: self.extended_model_id.copy(),
        }
    }
}

/// One device paired to a receiver, or plugged in directly.
#[derive(Debug, PartialEq, Eq)]
pub struct PairedDevice {
    pub slot: u8,
    pub codename: Option<String>,
    /// The wireless product id, when an arrival event told it.
    pub wpid: Option<u16>,
    pub kind: DeviceKind,
    pub online: bool,
    pub battery: Option<BatteryInfo>,
    pub model_info: Option<DeviceModelInfo>,
    pub capabilities: Option<Capabilities>,
}

/// The meaning of a [`PairedDevice`].
pub struct PairedDeviceView {
    pub slot: u8,
    pub codename: Option<Seq<char>>,
    pub wpid: Option<u16>,
    pub kind: DeviceKind,
    pub online: bool,
    pub battery: Option<BatteryInfo>,
    pub model_info: Option<DeviceModelInfoView>,
    pub capabilities: Option<Capabilities>,
}

impl DeepView for PairedDevice {
    type V = PairedDeviceView;

    open spec fn deep_view(&self) -> PairedDeviceView {
        PairedDeviceView {
            slot: self.slot.deep_view(),
            codename: self.codename.deep_view(),
            wpid: self.wpid.deep_view(),
            kind: self.kind.deep_view(),
            online: self.online.deep_view(),
            battery: self.battery.deep_view(),
            model_info: self.model_info.deep_view(),
            capabilities: self.capabilities.deep_view(),
        }
    }
}

impl Value for PairedDevice {
    fn same(&self, other: &Self) -> (r: bool) {
        self.slot.same(&other.slot)
            && self.codename.same(&other.codename)
            && self.wpid.same(&other.wpid)
            && self.kind.same(&other.kind)
            && self.online.same(&other.online)
            && self.battery.same(&other.battery)
            && self.model_info.same(&other.model_info)
            && self.capabilities.same(&other.capabilities)
    }

    fn copy(&self) -> (r: Self) {
        PairedDevice {
            slot: self.slot.copy(),
            codename: self.codename.copy(),
            wpid: self.wpid.copy(),
            kind: self.kind.copy(),
            online: self.online.copy(),
            battery: self.battery.copy(),
            model_info: self.model_info.copy(),
            capabilities: self.capabilities.copy(),
        }
    }
}

/// A receiver, or the node of a directly connected device.
#[derive(Debug, PartialEq, Eq)]
pub struct ReceiverInfo {
    pub name: String,
    pub vendor_id: u16,
    pub product_id: u16,
    pub unique_id: Option<String>,
}

/// The meaning of a [`ReceiverInfo`].
pub struct ReceiverInfoView {
    pub name: Seq<char>,
    pub vendor_id: u16,
    pub product_id: u16,
    pub unique_id: Option<Seq<char>>,
}

impl DeepView for ReceiverInfo {
    type V = ReceiverInfoView;

    open spec fn deep_view(&self) -> ReceiverInfoView {
        ReceiverInfoView {
            name: self.name.deep_view(),
            vendor_id: self.vendor_id.deep_view(),
            product_id: self.product_id.deep_view(),
            unique_id: self.unique_id.deep_view(),
        }
    }
}

impl Value for ReceiverInfo {
    fn same(&self, other: &Self) -> (r: bool) {
        self.name.same(&other.name)
            && self.vendor_id.same(&other.vendor_id)
            && self.product_id.same(&other.product_id)
            && self.unique_id.same(&other.unique_id)
    }

    fn copy(&self) -> (r: Self) {
        ReceiverInfo {
            name: self.name.copy(),
            vendor_id: self.vendor_id.copy(),
            product_id: self.product_id.copy(),
            unique_id: self.unique_id.copy(),
        }
    }
}

/// One receiver with the devices paired to it.
#[derive(Debug, PartialEq, Eq)]
pub struct DeviceInventory {
    pub receiver: ReceiverInfo,
    pub paired: Vec<PairedDevice>,
}

/// The meaning of a [`DeviceInventory`].
pub struct DeviceInventoryView {
    pub receiver: ReceiverInfoView,
    pub paired: Seq<PairedDeviceView>,
}

impl DeepView for DeviceInventory {
    type V = DeviceInventoryView;

    open spec fn deep_view(&self) -> DeviceInventoryView {
        DeviceInventoryView {
            receiver: self.receiver.deep_view(),
            paired: self.paired.deep_view(),
        }
    }
}

impl Value for DeviceInventory {
    fn same(&self, other: &Self) -> (r: bool) {
        self.receiver.same(&other.receiver)
            && self.paired.same(&other.paired)
    }

    fn copy(&self) -> (r: Self) {
        DeviceInventory {
            receiver: self.receiver.copy(),
            paired: self.paired.copy(),
        }
    }
}

/// How a device is reached over HID++.
#[derive(Debug, PartialEq, Eq)]
pub enum DeviceRoute {
    /// Through a Bolt receiver.
    Bolt { receiver_uid: String, slot: u8 },
    /// Through a Unifying receiver.
    Unifying { receiver_uid: String, slot: u8 },
    /// Over its own node.
    Direct { vendor_id: u16, product_id: u16 },
}

/// The meaning of a [`DeviceRoute`].
pub enum DeviceRouteView {
    Bolt { receiver_uid: Seq<char>, slot: u8 },
    Unifying { receiver_uid: Seq<char>, slot: u8 },
    Direct { vendor_id: u16, product_id: u16 },
}

impl DeepView for DeviceRoute {
    type V = DeviceRouteView;

    open spec fn deep_view(&self) -> DeviceRouteView {
        match self {
            DeviceRoute::Bolt { receiver_uid, slot } => DeviceRouteView::Bolt {
                receiver_uid: receiver_uid.deep_view(),
                slot: *slot,
            },
            DeviceRoute::Unifying { receiver_uid, slot } => DeviceRouteView::Unifying {
                receiver_uid: receiver_uid.deep_view(),
                slot: *slot,
            },
            DeviceRoute::Direct { vendor_id, product_id } => DeviceRouteView::Direct {
                vendor_id: *vendor_id,
                product_id: *product_id,
            },
        }
    }
}

impl Value for DeviceRoute {
    fn same(&self, other: &Self) -> (r: bool) {
        match (self, other) {
            (
                DeviceRoute::Bolt { receiver_uid: a, slot: s },
                DeviceRoute::Bolt { receiver_uid: b, slot: t },
            ) => a.same(b) && *s == *t,
            (
                DeviceRoute::Unifying { receiver_uid: a, slot: s },
                DeviceRoute::Unifying { receiver_uid: b, slot: t },
            ) => a.same(b) && *s == *t,
            (
                DeviceRoute::Direct { vendor_id: v, product_id: p },
                DeviceRoute::Direct { vendor_id: w, product_id: q },
            ) => *v == *w && *p == *q,
            _ => false,
        }
    }

    fn copy(&self) -> (r: Self) {
        match self {
            DeviceRoute::Bolt { receiver_uid, slot } => DeviceRoute::Bolt {
                receiver_uid: receiver_uid.copy(),
                slot: *slot,
            },
            DeviceRoute::Unifying { receiver_uid, slot } => DeviceRoute::Unifying {
                receiver_uid: receiver_uid.copy(),
                slot: *slot,
            },
            DeviceRoute::Direct { vendor_id, product_id } => DeviceRoute::Direct {
                vendor_id: *vendor_id,
                product_id: *product_id,
            },
        }
    }
}

/// The meaning of a device and of its identity holds what they hold.
pub proof fn law_paired_device_means_what_it_holds(device: PairedDevice, info: DeviceModelInfo)
    ensures
        ({
            let own = device.deep_view();
            &&& own.slot == device.slot
            &&& own.codename == device.codename.deep_view()
            &&& own.wpid == device.wpid
            &&& own.kind == device.kind
            &&& own.online == device.online
            &&& own.battery == device.battery
            &&& own.model_info == device.model_info.deep_view()
            &&& own.capabilities == device.capabilities
        }),
        ({
            let own = info.deep_view();
            &&& own.entity_count == info.entity_count
            &&& own.serial_number == info.serial_number.deep_view()
            &&& own.unit_id == info.unit_id@
            &&& own.transports == info.transports
            &&& own.model_ids == info.model_ids@
            &&& own.extended_model_id == info.extended_model_id
        }),
{
    assert(info.unit_id.deep_view() =~= info.unit_id@);
    assert(info.model_ids.deep_view() =~= info.model_ids@);
}

/// The meaning of an inventory holds its receiver and its devices, in order.
pub proof fn law_inventory_means_what_it_holds(inventory: DeviceInventory, i: int)
    ensures
        ({
            let (own, receiver) = (inventory.deep_view(), inventory.receiver);
            &&& own.receiver.name == receiver.name@
            &&& own.receiver.vendor_id == receiver.vendor_id
            &&& own.receiver.product_id == receiver.product_id
            &&& own.receiver.unique_id == receiver.unique_id.deep_view()
            &&& own.paired.len() == inventory.paired@.len()
            &&& 0 <= i < own.paired.len() ==> own.paired[i] == inventory.paired@[i].deep_view()
        }),
{
}

/// The meaning of a route holds its kind and its parts.
pub proof fn law_route_means_what_it_holds(route: DeviceRoute)
    ensures
        match route {
            DeviceRoute::Bolt { receiver_uid, slot } => route.deep_view() == (DeviceRouteView::Bolt {
                receiver_uid: receiver_uid@,
                slot,
            }),
            DeviceRoute::Unifying { receiver_uid, slot } => route.deep_view() == (DeviceRouteView::Unifying {
                receiver_uid: receiver_uid@,
                slot,
            }),
            DeviceRoute::Direct { vendor_id, product_id } => route.deep_view() == (DeviceRouteView::Direct {
                vendor_id,
                product_id,
            }),
        },
{
}

/// What holds nothing but plain values means itself.
pub proof fn law_plain_parts_mean_themselves(
    kind: DeviceKind,
    can: Capabilities,
    battery: BatteryInfo,
    transports: DeviceTransports,
)
    ensures
        kind.deep_view() == kind,
        can.deep_view() == can,
        battery.deep_view() == battery,
        transports.deep_view() == transports,
{
}

} // verus!
