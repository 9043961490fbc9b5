//! The panel of the SmartShift wheel: what it shows, and what its controls do.

use vstd::prelude::*;
use crate::config::{
    SmartShift, SmartShiftMode, AUTO_DISENGAGE_PERMANENT, DEFAULT_THUMBWHEEL_SENSITIVITY,
    SMARTSHIFT_AUTO_DISENGAGE_DEFAULT, SMARTSHIFT_MIN_AUTO_DISENGAGE,
};
use crate::device::DeviceRoute;
use crate::value::Value;

verus! {

/// The lowest threshold on the slider: below it the wheel spins freely at
/// everyday scrolling.
pub const THRESHOLD_MIN: u8 = SMARTSHIFT_MIN_AUTO_DISENGAGE;

/// The highest threshold on the slider.
pub const THRESHOLD_MAX: u8 = 50;

/// The threshold shown for a device that has none of use.
pub const DEFAULT_THRESHOLD: u8 = SMARTSHIFT_AUTO_DISENGAGE_DEFAULT;

/// The threshold is one of those on the slider.
pub open spec fn in_band(threshold: u8) -> bool {
    THRESHOLD_MIN <= threshold <= THRESHOLD_MAX
}

/// The place on the slider for a threshold that a device reports.
pub open spec fn shown_threshold(value: u8) -> u8 {
    if value < THRESHOLD_MIN {
        DEFAULT_THRESHOLD
    } else if value > THRESHOLD_MAX {
        THRESHOLD_MAX
    } else {
        value
    }
}

/// The place on the slider for a threshold that a device reports: the default
/// for one that is too low to be of use, the highest for one that is too high.
pub fn clamp_threshold(value: u8) -> (r: u8)
    ensures
        r == shown_threshold(value),
        in_band(r),
{
    if value < THRESHOLD_MIN {
        DEFAULT_THRESHOLD
    } else if value > THRESHOLD_MAX {
        THRESHOLD_MAX
    } else {
        value
    }
}

/// The threshold for a place of the slider, rounded to a whole number.
pub open spec fn slid_threshold(raw: i64) -> int {
    if raw < THRESHOLD_MIN {
        THRESHOLD_MIN as int
    } else if raw > THRESHOLD_MAX {
        THRESHOLD_MAX as int
    } else {
        raw as int
    }
}

/// The threshold for a place of the slider, rounded to a whole number.
pub fn raw_to_threshold(raw: i64) -> (r: u8)
    ensures
        r == slid_threshold(raw),
        in_band(r),
{
    if raw < THRESHOLD_MIN as i64 {
        THRESHOLD_MIN
    } else if raw > THRESHOLD_MAX as i64 {
        THRESHOLD_MAX
    } else {
        raw as u8
    }
}

/// A threshold within the band is shown as it is, and comes back from the slider
/// as it is.
pub proof fn law_band_is_kept(threshold: u8)
    requires
        in_band(threshold),
    ensures
        shown_threshold(threshold) == threshold,
        slid_threshold(threshold as i64) == threshold,
{
}

/// The sliders of the panel.
#[derive(Clone, Copy, Debug, PartialEq, Eq, Structural)]
pub struct SmartShiftPanel {
    /// The threshold that the slider was last set to.
    pub last_threshold: u8,
    /// The threshold while the slider is dragged.
    pub pending_threshold: Option<u8>,
    /// The sensitivity that its slider was last set to.
    pub last_wheel_sensitivity: i32,
    /// The sensitivity while its slider is dragged.
    pub pending_wheel_sensitivity: Option<i32>,
}

/// The controls once the settings of the device are known, and what a click on
/// each of them sets.
#[derive(Clone, Copy, Debug, PartialEq, Eq, Structural)]
pub struct ReadyBody {
    /// The slider is to be moved here.
    pub reseat: Option<u8>,
    /// The number beside the slider.
    pub display: u8,
    /// The wheel is in ratchet mode.
    pub ratchet: bool,
    /// The slider can be used.
    pub sensitivity_enabled: bool,
    /// The ratchet is permanent.
    pub permanent: bool,
    pub free_click: SmartShift,
    pub ratchet_click: SmartShift,
    pub permanent_click: SmartShift,
}

/// The row of the thumb wheel.
#[derive(Clone, Copy, Debug, PartialEq, Eq, Structural)]
pub struct WheelRow {
    /// The slider is to be moved here.
    pub reseat: Option<i32>,
    /// The number beside the slider.
    pub display: i32,
}

/// What is known of the settings of a device.
#[derive(Clone, Copy, Debug, PartialEq, Eq, Structural)]
pub enum LoadKind {
    Unknown,
    Loading,
    Ready,
    Failed,
    Unsupported,
}

/// What the panel shows.
#[derive(Clone, Copy, Debug, PartialEq, Eq, Structural)]
pub enum PanelContent {
    /// The controls.
    Controls,
    Offline,
    Reading,
    /// A line that reads again when it is clicked.
    Retry,
    Unsupported,
}

/// What came of the last write.
#[derive(Clone, Copy, Debug, PartialEq, Eq, Structural)]
pub enum SmartShiftWriteStatus {
    Applying { write_id: u64 },
    Confirmed,
    Failed,
}

/// The line below the controls.
#[derive(Clone, Copy, Debug, PartialEq, Eq, Structural)]
pub enum Feedback {
    Reading,
    Done,
    /// A line that reads again when it is clicked.
    Retry,
}

impl SmartShiftPanel {
    /// The threshold to go back to is one of those on the slider.
    pub open spec fn is_sound(&self) -> bool {
        in_band(self.last_threshold)
    }

    /// The threshold in force, or the one to go back to while the ratchet is
    /// permanent.
    pub open spec fn committed(&self, status: SmartShift) -> u8 {
        if status.auto_disengage == AUTO_DISENGAGE_PERMANENT {
            self.last_threshold
        } else {
            shown_threshold(status.auto_disengage)
        }
    }

    pub fn new() -> (r: Self)
        ensures
            r == (SmartShiftPanel {
                last_threshold: DEFAULT_THRESHOLD,
                pending_threshold: None,
                last_wheel_sensitivity: DEFAULT_THUMBWHEEL_SENSITIVITY,
                pending_wheel_sensitivity: None,
            }),
            r.is_sound(),
    {
        SmartShiftPanel {
            last_threshold: DEFAULT_THRESHOLD,
            pending_threshold: None,
            last_wheel_sensitivity: DEFAULT_THUMBWHEEL_SENSITIVITY,
            pending_wheel_sensitivity: None,
        }
    }

    /// The threshold slider is dragged: only the number beside it follows.
    pub fn threshold_changed(&mut self, raw: i64)
        ensures
            *final(self) == (SmartShiftPanel { pending_threshold: Some(slid_threshold(raw) as u8), ..*old(self) }),
    {
        self.pending_threshold = Some(raw_to_threshold(raw));
    }

    /// The threshold slider is let go: what is to be written. `torque` is the
    /// torque that the device is known to have.
    pub fn threshold_released(&mut self, raw: i64, torque: Option<u8>) -> (r: SmartShift)
        ensures
            r == (SmartShift {
                mode: SmartShiftMode::Ratchet,
                auto_disengage: slid_threshold(raw) as u8,
                tunable_torque: match torque {
                    Some(t) => t,
                    None => 0,
                },
            }),
            *final(self) == (SmartShiftPanel {
                pending_threshold: None,
                last_threshold: slid_threshold(raw) as u8,
                ..*old(self)
            }),
            final(self).is_sound(),
    {
        let t: u8 = raw_to_threshold(raw);
        self.pending_threshold = None;
        self.last_threshold = t;
        SmartShift {
            mode: SmartShiftMode::Ratchet,
            auto_disengage: t,
            tunable_torque: match torque {
                Some(t) => t,
                None => 0,
            },
        }
    }

    /// The sensitivity slider is dragged.
    pub fn sensitivity_changed(&mut self, value: i32)
        ensures
            *final(self) == (SmartShiftPanel { pending_wheel_sensitivity: Some(value), ..*old(self) }),
    {
        self.pending_wheel_sensitivity = Some(value);
    }

    /// The sensitivity slider is let go: the sensitivity to set.
    pub fn sensitivity_released(&mut self, value: i32) -> (r: i32)
        ensures
            r == value,
            *final(self) == (SmartShiftPanel {
                pending_wheel_sensitivity: None,
                last_wheel_sensitivity: value,
                ..*old(self)
            }),
    {
        self.pending_wheel_sensitivity = None;
        self.last_wheel_sensitivity = value;
        value
    }

    /// The controls for the settings `status`. The slider follows a change from
    /// elsewhere, but not while it is dragged.
    pub fn ready_body(&mut self, status: SmartShift) -> (r: ReadyBody)
        requires
            old(self).is_sound(),
        ensures
            final(self).is_sound(),
            ({
                let permanent = status.auto_disengage == AUTO_DISENGAGE_PERMANENT;
                let ratchet = status.mode == SmartShiftMode::Ratchet;
                let committed = old(self).committed(status);
                let moves = !permanent && old(self).pending_threshold is None && committed
                    != old(self).last_threshold;
                &&& *final(self) == (SmartShiftPanel {
                    last_threshold: if moves {
                        committed
                    } else {
                        old(self).last_threshold
                    },
                    ..*old(self)
                })
                &&& r.reseat == if moves {
                    Some(committed)
                } else {
                    None
                }
                &&& r.display == match old(self).pending_threshold {
                    Some(t) => t,
                    None => committed,
                }
                &&& r.ratchet == ratchet
                &&& r.sensitivity_enabled == (ratchet && !permanent)
                &&& r.permanent == permanent
                &&& r.free_click == (SmartShift { mode: SmartShiftMode::Free, ..status })
                &&& r.ratchet_click == (SmartShift {
                    mode: SmartShiftMode::Ratchet,
                    auto_disengage: committed,
                    ..status
                })
                &&& r.permanent_click == (SmartShift {
                    mode: SmartShiftMode::Ratchet,
                    auto_disengage: if permanent {
                        committed
                    } else {
                        AUTO_DISENGAGE_PERMANENT
                    },
                    ..status
                })
            }),
    {
        let permanent = status.auto_disengage == AUTO_DISENGAGE_PERMANENT;
        let ratchet = status.mode == SmartShiftMode::Ratchet;
        let committed: u8 = if permanent {
            self.last_threshold
        } else {
            clamp_threshold(status.auto_disengage)
        };
        let mut reseat: Option<u8> = None;
        if !permanent && self.pending_threshold.is_none() && committed != self.last_threshold {
            self.last_threshold = committed;
            reseat = Some(committed);
        }
        let display: u8 = match self.pending_threshold {
            Some(t) => t,
            None => committed,
        };
        ReadyBody {
            reseat,
            display,
            ratchet,
            sensitivity_enabled: ratchet && !permanent,
            permanent,
            free_click: SmartShift {
                mode: SmartShiftMode::Free,
                auto_disengage: status.auto_disengage,
                tunable_torque: status.tunable_torque,
            },
            ratchet_click: SmartShift {
                mode: SmartShiftMode::Ratchet,
                auto_disengage: committed,
                tunable_torque: status.tunable_torque,
            },
            permanent_click: SmartShift {
                mode: SmartShiftMode::Ratchet,
                auto_disengage: if permanent {
                    committed
                } else {
                    AUTO_DISENGAGE_PERMANENT
                },
                tunable_torque: status.tunable_torque,
            },
        }
    }

    /// The row of the thumb wheel; `selected` is the sensitivity of the selected
    /// device.
    pub fn wheel_sensitivity_row(&mut self, selected: Option<i32>) -> (r: WheelRow)
        ensures
            ({
                let committed = match selected {
                    Some(s) => s,
                    None => DEFAULT_THUMBWHEEL_SENSITIVITY,
                };
                let moves = old(self).pending_wheel_sensitivity is None && committed
                    != old(self).last_wheel_sensitivity;
                &&& *final(self) == (SmartShiftPanel {
                    last_wheel_sensitivity: if moves {
                        committed
                    } else {
                        old(self).last_wheel_sensitivity
                    },
                    ..*old(self)
                })
                &&& r.reseat == if moves {
                    Some(committed)
                } else {
                    None
                }
                &&& r.display == match old(self).pending_wheel_sensitivity {
                    Some(s) => s,
                    None => committed,
                }
            }),
    {
        let committed: i32 = match selected {
            Some(s) => s,
            None => DEFAULT_THUMBWHEEL_SENSITIVITY,
        };
        let mut reseat: Option<i32> = None;
        if self.pending_wheel_sensitivity.is_none() && committed != self.last_wheel_sensitivity {
            self.last_wheel_sensitivity = committed;
            reseat = Some(committed);
        }
        WheelRow {
            reseat,
            display: match self.pending_wheel_sensitivity {
                Some(s) => s,
                None => committed,
            },
        }
    }
}

/// What the panel shows for what is known of the settings; `reachable` tells
/// whether the device can be asked.
pub fn panel_content(load: LoadKind, reachable: bool) -> (r: PanelContent)
    ensures
        r == match load {
            LoadKind::Ready => PanelContent::Controls,
            LoadKind::Loading | LoadKind::Unknown => if reachable {
                PanelContent::Reading
            } else {
                PanelContent::Offline
            },
            LoadKind::Failed => PanelContent::Retry,
            LoadKind::Unsupported => PanelContent::Unsupported,
        },
{
    match load {
        LoadKind::Ready => PanelContent::Controls,
        LoadKind::Loading | LoadKind::Unknown => if reachable {
            PanelContent::Reading
        } else {
            PanelContent::Offline
        },
        LoadKind::Failed => PanelContent::Retry,
        LoadKind::Unsupported => PanelContent::Unsupported,
    }
}

/// The line below the controls; none while there are no controls.
pub fn smartshift_write_feedback(load: LoadKind, status: Option<SmartShiftWriteStatus>) -> (r: Option<Feedback>)
    ensures
        r == match (load, status) {
            (LoadKind::Ready, Some(SmartShiftWriteStatus::Applying { .. })) => Some(Feedback::Reading),
            (LoadKind::Ready, Some(SmartShiftWriteStatus::Confirmed)) => Some(Feedback::Done),
            (LoadKind::Ready, Some(SmartShiftWriteStatus::Failed)) => Some(Feedback::Retry),
            _ => None,
        },
{
    if load != LoadKind::Ready {
        return None;
    }
    match status {
        Some(SmartShiftWriteStatus::Applying { .. }) => Some(Feedback::Reading),
        Some(SmartShiftWriteStatus::Confirmed) => Some(Feedback::Done),
        Some(SmartShiftWriteStatus::Failed) => Some(Feedback::Retry),
        None => None,
    }
}

/// What has to be read for the selected device: nothing unless its settings were
/// never asked for and it can be reached. A write under way is named, so that
/// the answer can be told from an older one.
pub fn smartshift_load_target(
    unqueried: bool,
    selected: Option<(&String, &Option<DeviceRoute>)>,
    write_status: Option<SmartShiftWriteStatus>,
) -> (r: Option<(String, DeviceRoute, Option<u64>)>)
    ensures
        match r {
            Some((key, route, write_id)) => {
                &&& unqueried
                &&& selected matches Some((k, found)) && key@ == k@ && found.deep_view() == Some(route.deep_view())
                &&& write_id == match write_status {
                    Some(SmartShiftWriteStatus::Applying { write_id }) => Some(write_id),
                    _ => None,
                }
            },
            None => !unqueried || (selected matches Some((_, found)) ==> found is None),
        },
{
    if !unqueried {
        return None;
    }
    match selected {
        Some((key, Some(route))) => {
            let write_id = match write_status {
                Some(SmartShiftWriteStatus::Applying { write_id }) => Some(write_id),
                _ => None,
            };
            Some((key.copy(), route.copy(), write_id))
        },
        _ => None,
    }
}

/// Switching to ratchet mode never makes the ratchet permanent, and switching
/// the permanent ratchet off goes back to a threshold on the slider.
pub proof fn law_ratchet_is_not_made_permanent(panel: SmartShiftPanel, status: SmartShift)
    requires
        panel.is_sound(),
    ensures
        in_band(panel.committed(status)),
        panel.committed(status) != AUTO_DISENGAGE_PERMANENT,
{
}

/// Switching the permanent ratchet on and off again goes back to the threshold
/// that was in force.
pub proof fn law_permanent_toggle_goes_back(panel: SmartShiftPanel, status: SmartShift, on: SmartShift)
    requires
        panel.is_sound(),
        panel.last_threshold == panel.committed(status),
        on.auto_disengage == AUTO_DISENGAGE_PERMANENT,
    ensures
        panel.committed(on) == panel.committed(status),
{
}

/// A threshold that the slider has is shown as the device has it, and switching
/// to ratchet mode keeps it, in whatever mode the wheel is. One that is too low
/// to be of use is shown as the default, one beyond the slider as its end.
pub proof fn law_threshold_is_that_of_the_device(panel: SmartShiftPanel, status: SmartShift)
    ensures
        status.auto_disengage != AUTO_DISENGAGE_PERMANENT && THRESHOLD_MIN <= status.auto_disengage <= THRESHOLD_MAX
            ==> panel.committed(status) == status.auto_disengage,
        status.auto_disengage < THRESHOLD_MIN ==> panel.committed(status) == DEFAULT_THRESHOLD,
        THRESHOLD_MAX < status.auto_disengage < AUTO_DISENGAGE_PERMANENT ==> panel.committed(status) == THRESHOLD_MAX,
        status.auto_disengage == AUTO_DISENGAGE_PERMANENT ==> panel.committed(status) == panel.last_threshold,
{
}

/// The threshold in force depends on the device's alone: neither on the mode nor
/// on the torque nor on a drag under way.
pub proof fn law_threshold_does_not_depend_on_the_mode(
    panel: SmartShiftPanel,
    dragged: SmartShiftPanel,
    status: SmartShift,
    other: SmartShift,
)
    requires
        panel.last_threshold == dragged.last_threshold,
        status.auto_disengage == other.auto_disengage,
    ensures
        panel.committed(status) == dragged.committed(other),
{
}

/// A place of the slider stands for the threshold next to it.
pub proof fn law_slider_takes_the_next_threshold(raw: i64, threshold: u8)
    requires
        THRESHOLD_MIN <= threshold <= THRESHOLD_MAX,
    ensures
        THRESHOLD_MIN <= slid_threshold(raw) <= THRESHOLD_MAX,
        raw <= threshold ==> raw <= slid_threshold(raw) <= threshold || slid_threshold(raw) == THRESHOLD_MIN,
        raw >= threshold ==> threshold <= slid_threshold(raw) <= raw || slid_threshold(raw) == THRESHOLD_MAX,
        raw == threshold ==> slid_threshold(raw) == threshold,
{
}

/// The thresholds of the slider.
pub proof fn law_band_is_the_slider(threshold: u8)
    ensures
        in_band(threshold) <==> THRESHOLD_MIN <= threshold <= THRESHOLD_MAX,
        THRESHOLD_MIN <= DEFAULT_THRESHOLD <= THRESHOLD_MAX < AUTO_DISENGAGE_PERMANENT,
{
}

/// The slider goes from 8 to 50 and starts at 16.
pub proof fn law_ends_of_the_slider()
    ensures
        THRESHOLD_MIN == 8,
        THRESHOLD_MAX == 50,
        DEFAULT_THRESHOLD == 16,
{
}

} // verus!
