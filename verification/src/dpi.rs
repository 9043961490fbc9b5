//! DPI presets: cycling through them, and choosing one.

use vstd::prelude::*;
use crate::device::{DeviceRoute, DeviceRouteView};
use crate::table::Table;
use crate::value::Value;

verus! {

/// How far apart two DPI values are.
pub open spec fn dpi_distance(a: u32, b: u32) -> int {
    if a <= b {
        b - a
    } else {
        a - b
    }
}

/// `values[i]` is the value nearest to `dpi`, the first one of those equally
/// near.
pub open spec fn is_nearest(values: Seq<u32>, dpi: u32, i: int) -> bool {
    &&& 0 <= i < values.len()
    &&& forall|j: int| 0 <= j < values.len() ==> dpi_distance(values[i], dpi) <= #[trigger] dpi_distance(
        values[j],
        dpi,
    )
    &&& forall|j: int| 0 <= j < i ==> dpi_distance(values[i], dpi) < #[trigger] dpi_distance(values[j], dpi)
}

/// The supported value for a wish of `dpi`: the nearest one, or the wish itself
/// when nothing is listed.
pub open spec fn snapped(values: Seq<u32>, dpi: u32) -> u32 {
    if values.len() == 0 {
        dpi
    } else {
        values[choose|i: int| is_nearest(values, dpi, i)]
    }
}

pub proof fn lemma_snapped(values: Seq<u32>, dpi: u32, i: int)
    requires
        is_nearest(values, dpi, i),
    ensures
        snapped(values, dpi) == values[i],
{
    let k = choose|k: int| is_nearest(values, dpi, k);
    assert(is_nearest(values, dpi, k));
    if k < i {
        assert(dpi_distance(values[i], dpi) < dpi_distance(values[k], dpi));
    } else if i < k {
        assert(dpi_distance(values[k], dpi) < dpi_distance(values[i], dpi));
    }
}

/// The DPI values that a sensor supports.
#[derive(Debug, PartialEq, Eq)]
pub struct DpiCapabilities {
    pub values: Vec<u32>,
}

impl DeepView for DpiCapabilities {
    type V = Seq<u32>;

    open spec fn deep_view(&self) -> Seq<u32> {
        self.values@
    }
}

impl Value for DpiCapabilities {
    fn same(&self, other: &Self) -> (r: bool) {
        assert(self.values.deep_view() =~= self.values@);
        assert(other.values.deep_view() =~= other.values@);
        self.values.same(&other.values)
    }

    fn copy(&self) -> (r: Self) {
        assert(self.values.deep_view() =~= self.values@);
        let values: Vec<u32> = self.values.copy();
        assert(values.deep_view() =~= values@);
        DpiCapabilities { values }
    }
}

impl DpiCapabilities {
    /// The supported value nearest to `dpi`.
    pub fn snap(&self, dpi: u32) -> (r: u32)
        ensures
            r == snapped(self.values@, dpi),
    {
        if self.values.len() == 0 {
            return dpi;
        }
        let mut best: usize = 0;
        let mut i: usize = 1;
        while i < self.values.len()
            invariant
                best < i <= self.values@.len(),
                forall|j: int| 0 <= j < i ==> dpi_distance(self.values@[best as int], dpi)
                    <= #[trigger] dpi_distance(self.values@[j], dpi),
                forall|j: int| 0 <= j < best ==> dpi_distance(self.values@[best as int], dpi)
                    < #[trigger] dpi_distance(self.values@[j], dpi),
            decreases self.values@.len() - i,
        {
            if distance(self.values[i], dpi) < distance(self.values[best], dpi) {
                best = i;
            }
            i += 1;
        }
        proof {
            assert(is_nearest(self.values@, dpi, best as int));
            lemma_snapped(self.values@, dpi, best as int);
        }
        self.values[best]
    }
}

fn distance(a: u32, b: u32) -> (r: u32)
    ensures
        r == dpi_distance(a, b),
{
    if a <= b {
        b - a
    } else {
        a - b
    }
}

/// A reading of a sensor: what it is set to, and what it supports.
#[derive(Debug, PartialEq, Eq)]
pub struct DpiInfo {
    pub current: u16,
    pub capabilities: DpiCapabilities,
}

impl DeepView for DpiInfo {
    type V = (u16, Seq<u32>);

    open spec fn deep_view(&self) -> (u16, Seq<u32>) {
        (self.current, self.capabilities.deep_view())
    }
}

impl Value for DpiInfo {
    fn same(&self, other: &Self) -> (r: bool) {
        self.current == other.current && self.capabilities.same(&other.capabilities)
    }

    fn copy(&self) -> (r: Self) {
        DpiInfo { current: self.current, capabilities: self.capabilities.copy() }
    }
}

/// The presets of one device and the one that is set.
///
/// `index` is the place of the DPI that was last set on the device, not of the
/// one that comes next.
pub struct DpiCycleState {
    pub presets: Vec<u32>,
    pub index: usize,
    pub target: Option<DeviceRoute>,
    pub capabilities: Option<DpiCapabilities>,
}

/// The meaning of a [`DpiCycleState`].
pub struct DpiCycleStateView {
    pub presets: Seq<u32>,
    pub index: usize,
    pub target: Option<DeviceRouteView>,
    pub capabilities: Option<Seq<u32>>,
}

impl DeepView for DpiCycleState {
    type V = DpiCycleStateView;

    open spec fn deep_view(&self) -> DpiCycleStateView {
        DpiCycleStateView {
            presets: self.presets@,
            index: self.index,
            target: self.target.deep_view(),
            capabilities: self.capabilities.deep_view(),
        }
    }
}

impl DpiCycleState {
    /// What a preset of `dpi` sets on this device.
    pub open spec fn normalized(&self, dpi: u32) -> u32 {
        match self.capabilities {
            Some(caps) => snapped(caps.values@, dpi),
            None => dpi,
        }
    }

    /// Everything but the index is as in `other`.
    pub open spec fn same_but_index(&self, other: &Self) -> bool {
        &&& self.presets == other.presets
        &&& self.target == other.target
        &&& self.capabilities == other.capabilities
    }

    /// Goes on to the next preset, from the last one to the first, and returns
    /// its DPI and the device to write it to; nothing when there is no preset.
    pub fn cycle(&mut self) -> (r: Option<(u32, Option<DeviceRoute>)>)
        requires
            old(self).presets@.len() > 0 ==> old(self).index < usize::MAX,
        ensures
            final(self).same_but_index(old(self)),
            old(self).presets@.len() == 0 ==> r is None && final(self).index == old(self).index,
            old(self).presets@.len() > 0 ==> {
                &&& final(self).index == cycled(old(self).index as int, old(self).presets@.len() as int)
                &&& r matches Some((dpi, target)) && dpi == old(self).normalized(
                    old(self).presets@[final(self).index as int],
                ) && target.deep_view() == old(self).target.deep_view()
            },
    {
        if self.presets.len() == 0 {
            return None;
        }
        self.index = (self.index + 1) % self.presets.len();
        Some((self.normalize(self.presets[self.index]), self.target.copy()))
    }

    /// Goes to preset `i`, or to the last one when there are fewer, and returns
    /// its DPI and the device to write it to; nothing when there is no preset.
    pub fn set(&mut self, i: usize) -> (r: Option<(u32, Option<DeviceRoute>)>)
        ensures
            final(self).same_but_index(old(self)),
            old(self).presets@.len() == 0 ==> r is None && final(self).index == old(self).index,
            old(self).presets@.len() > 0 ==> {
                &&& final(self).index == if i < old(self).presets@.len() {
                    i as int
                } else {
                    old(self).presets@.len() - 1
                }
                &&& r matches Some((dpi, target)) && dpi == old(self).normalized(
                    old(self).presets@[final(self).index as int],
                ) && target.deep_view() == old(self).target.deep_view()
            },
    {
        if self.presets.len() == 0 {
            return None;
        }
        let clamped: usize = if i < self.presets.len() {
            i
        } else {
            self.presets.len() - 1
        };
        self.index = clamped;
        Some((self.normalize(self.presets[clamped]), self.target.copy()))
    }

    fn normalize(&self, dpi: u32) -> (r: u32)
        ensures
            r == self.normalized(dpi),
    {
        match &self.capabilities {
            Some(caps) => caps.snap(dpi),
            None => dpi,
        }
    }
}

/// The index after one step of a cycle through `len` presets.
pub open spec fn cycled(index: int, len: int) -> int {
    (index + 1) % len
}

/// The index after `steps` steps of a cycle through `len` presets.
pub open spec fn cycled_times(index: int, len: int, steps: nat) -> int
    decreases steps,
{
    if steps == 0 {
        index
    } else {
        cycled(cycled_times(index, len, (steps - 1) as nat), len)
    }
}

/// Within `len` steps from `index` the cycle comes to `i`.
pub open spec fn visited(index: int, len: int, i: int) -> bool {
    exists|steps: nat| 0 < steps <= len && #[trigger] cycled_times(index, len, steps) == i
}

/// Cycling once for every preset comes back to the preset that was set, and no
/// preset is left out on the way.
pub proof fn law_cycle_visits_every_preset(index: int, len: int)
    requires
        0 <= index < len,
    ensures
        cycled_times(index, len, len as nat) == index,
        forall|i: int| 0 <= i < len ==> #[trigger] visited(index, len, i),
{
    assert forall|steps: nat| steps <= len implies #[trigger] cycled_times(index, len, steps) == (if index + steps
        < len {
        index + steps
    } else {
        index + steps - len
    }) by {
        lemma_cycled_times(index, len, steps);
    }
    assert forall|i: int| 0 <= i < len implies #[trigger] visited(index, len, i) by {
        let steps: nat = if i > index {
            (i - index) as nat
        } else {
            (i - index + len) as nat
        };
        assert(cycled_times(index, len, steps) == i);
    }
}

proof fn lemma_cycled_times(index: int, len: int, steps: nat)
    requires
        0 <= index < len,
        steps <= len,
    ensures
        cycled_times(index, len, steps) == (if index + steps < len {
            index + steps
        } else {
            index + steps - len
        }),
    decreases steps,
{
    if steps > 0 {
        lemma_cycled_times(index, len, (steps - 1) as nat);
        let before = cycled_times(index, len, (steps - 1) as nat);
        assert(0 <= before < len);
        if before + 1 < len {
            vstd::arithmetic::div_mod::lemma_small_mod((before + 1) as nat, len as nat);
        } else {
            vstd::arithmetic::div_mod::lemma_mod_self_0(len);
        }
    }
}

/// The cycle state of every online device, and the device that is selected.
///
/// An input captured over HID++ is resolved against the device it came from. An
/// input of the OS hook names no device and is resolved against the selection.
pub struct DpiCycles {
    pub selected: Option<String>,
    pub by_key: Table<String, DpiCycleState>,
}

impl DpiCycles {
    /// The key that a request for `key` means: itself, or the selection.
    pub open spec fn resolved(&self, key: Option<&str>) -> Option<Seq<char>> {
        match key {
            Some(k) => Some(k@),
            None => self.selected.deep_view(),
        }
    }

    /// The meaning of all states, by key.
    pub open spec fn states(&self) -> Map<Seq<char>, DpiCycleStateView> {
        Map::new(|k: Seq<char>| self.by_key@.dom().contains(k), |k: Seq<char>| self.by_key@[k].deep_view())
    }

    /// No device, and none selected.
    pub fn new() -> (r: Self)
        ensures
            r.selected is None,
            r.by_key@ == Map::<Seq<char>, DpiCycleState>::empty(),
    {
        DpiCycles { selected: None, by_key: Table::new() }
    }

    /// The state of `key`, or of the selected device when no key is given.
    pub fn state_for(&mut self, key: Option<&str>) -> (r: Option<&mut DpiCycleState>)
        ensures
            final(self).selected == old(self).selected,
            match r {
                Some(state) => {
                    &&& old(self).resolved(key) matches Some(k) && old(self).by_key@.dom().contains(k) && *state
                        == old(self).by_key@[k] && final(self).by_key@ == old(self).by_key@.insert(k, *final(state))
                },
                None => {
                    &&& old(self).resolved(key) matches Some(k) ==> !old(self).by_key@.dom().contains(k)
                    &&& final(self).by_key == old(self).by_key
                },
            },
    {
        let key: String = match key {
            Some(k) => k.to_owned(),
            None => match &self.selected {
                Some(k) => k.clone(),
                None => {
                    return None;
                },
            },
        };
        self.by_key.get_mut(&key)
    }
}

/// What a wish is brought to is one of the supported values, and none is nearer.
/// Of two that are as near, it is the one that is listed first. A supported
/// value stays as it is, and without a list so does every wish.
pub proof fn law_snapping_takes_the_nearest_value(values: Seq<u32>, dpi: u32)
    ensures
        values.len() == 0 ==> snapped(values, dpi) == dpi,
        values.len() > 0 ==> values.contains(snapped(values, dpi)),
        forall|i: int|
            0 <= i < values.len() ==> {
                let (own, other) = (snapped(values, dpi) - dpi, #[trigger] values[i] - dpi);
                (if own >= 0 { own } else { -own }) <= (if other >= 0 { other } else { -other })
            },
        values.contains(dpi) ==> snapped(values, dpi) == dpi,
        forall|i: int|
            0 <= i < values.len() && #[trigger] values[i] != snapped(values, dpi) && values[i] - dpi == dpi - snapped(
                values,
                dpi,
            ) ==> values.take(i).contains(snapped(values, dpi)),
{
    if values.len() > 0 {
        let k = lemma_nearest(values, dpi, values.len() as int);
        lemma_snapped(values, dpi, k);
        assert(values[k] == snapped(values, dpi));
        assert forall|i: int| 0 <= i < values.len() implies dpi_distance(values[k], dpi) <= dpi_distance(
            #[trigger] values[i],
            dpi,
        ) by {}
        if values.contains(dpi) {
            let i = choose|i: int| 0 <= i < values.len() && values[i] == dpi;
            assert(dpi_distance(values[k], dpi) <= dpi_distance(values[i], dpi));
        }
        assert forall|i: int|
            0 <= i < values.len() && #[trigger] values[i] != snapped(values, dpi) && values[i] - dpi == dpi - snapped(
                values,
                dpi,
            ) implies values.take(i).contains(snapped(values, dpi)) by {
            assert(dpi_distance(values[i], dpi) == dpi_distance(values[k], dpi));
            assert(values.take(i)[k] == values[k]);
        }
    }
}

proof fn lemma_nearest(values: Seq<u32>, dpi: u32, n: int) -> (k: int)
    requires
        0 < n <= values.len(),
    ensures
        0 <= k < n,
        forall|j: int| 0 <= j < n ==> dpi_distance(values[k], dpi) <= #[trigger] dpi_distance(values[j], dpi),
        forall|j: int| 0 <= j < k ==> dpi_distance(values[k], dpi) < #[trigger] dpi_distance(values[j], dpi),
    decreases n,
{
    if n == 1 {
        0
    } else {
        let k = lemma_nearest(values, dpi, n - 1);
        if dpi_distance(values[n - 1], dpi) < dpi_distance(values[k], dpi) {
            n - 1
        } else {
            k
        }
    }
}

/// A preset is set as it is, or as the value next to it once it is known what
/// the sensor supports.
pub proof fn law_preset_is_brought_to_the_sensor(state: DpiCycleState, dpi: u32)
    ensures
        state.capabilities is None ==> state.normalized(dpi) == dpi,
        state.capabilities matches Some(can) ==> state.normalized(dpi) == snapped(can.values@, dpi),
{
}

/// One step leads to the next preset, from the last one to the first, and from
/// beyond the list into it.
pub proof fn law_step_leads_to_the_next_preset(index: int, len: int)
    requires
        0 <= index,
        0 < len,
    ensures
        0 <= cycled(index, len) < len,
        index + 1 < len ==> cycled(index, len) == index + 1,
        index + 1 == len ==> cycled(index, len) == 0,
{
    vstd::arithmetic::div_mod::lemma_mod_bound(index + 1, len);
    if index + 1 < len {
        vstd::arithmetic::div_mod::lemma_small_mod((index + 1) as nat, len as nat);
    } else if index + 1 == len {
        vstd::arithmetic::div_mod::lemma_mod_self_0(len);
    }
}

/// A step changes the index alone.
pub proof fn law_step_keeps_the_rest(before: DpiCycleState, after: DpiCycleState)
    requires
        after.same_but_index(&before),
    ensures
        after.presets == before.presets,
        after.target == before.target,
        after.capabilities == before.capabilities,
{
}

/// An input that names a device means that device, whatever is selected; one that
/// names none means the selection.
pub proof fn law_named_device_goes_before_the_selection(cycles: DpiCycles, key: &str)
    ensures
        cycles.resolved(Some(key)) == Some(key@),
        cycles.selected matches Some(selected) ==> cycles.resolved(None) == Some(selected@),
        cycles.selected is None ==> cycles.resolved(None) is None,
{
}

/// The states are those of the devices.
pub proof fn law_states_are_those_of_the_devices(cycles: DpiCycles, key: Seq<char>)
    ensures
        cycles.states().dom().contains(key) <==> cycles.by_key@.dom().contains(key),
        cycles.by_key@.dom().contains(key) ==> {
            let (seen, own) = (cycles.states()[key], cycles.by_key@[key]);
            &&& seen.presets == own.presets@
            &&& seen.index == own.index
            &&& seen.target == own.target.deep_view()
            &&& own.capabilities is None ==> seen.capabilities is None
            &&& own.capabilities matches Some(can) ==> seen.capabilities == Some(can.values@)
        },
{
}

/// The meaning of a reading and of a cycle state holds what they hold.
pub proof fn law_reading_means_what_it_holds(info: DpiInfo, state: DpiCycleState)
    ensures
        info.deep_view().0 == info.current,
        info.deep_view().1 == info.capabilities.values@,
        state.deep_view().presets == state.presets@,
        state.deep_view().index == state.index,
        state.deep_view().target == state.target.deep_view(),
        state.deep_view().capabilities == match state.capabilities {
            Some(caps) => Some(caps.values@),
            None => None,
        },
{
}

} // verus!
