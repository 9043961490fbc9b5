//! What is captured of one device, and what its inputs do.

use vstd::prelude::*;
use crate::buttons::{Action, ButtonId, GestureDirection};
use crate::config::Config;
use crate::device::DeviceRoute;
use crate::seqs::{lemma_filter_contains, lemma_filter_step, lemma_push_contains};
use crate::table::Table;
use crate::value::list_contains;

verus! {

/// The control id of the dedicated gesture button.
pub const GESTURE_BUTTON_CID: u16 = 0x00c3;

/// The control id of the haptic panel.
pub const HAPTIC_PANEL_CID: u16 = 0x01a0;

/// The bindings of one device, as they hold for the application in front.
pub struct ProjectedBindings {
    /// The action of each button.
    pub bindings: Table<ButtonId, Action>,
    /// The action of each direction; empty unless the dedicated gesture button
    /// owns the gestures.
    pub gesture_bindings: Table<GestureDirection, Action>,
    /// The buttons whose gestures the OS hook follows.
    pub oshook: Vec<ButtonId>,
}

/// All that is needed to capture the inputs of one device and act on them.
pub struct DeviceCapturePlan {
    pub config_key: String,
    pub route: DeviceRoute,
    pub bindings: Table<ButtonId, Action>,
    pub gesture_bindings: Table<GestureDirection, Action>,
    /// The buttons to take over, with their control ids. A button with its
    /// default action stays with the device.
    pub divert_buttons: Vec<(u16, ButtonId)>,
    /// Some thumb-wheel binding differs from its default.
    pub thumbwheel_bindings_nondefault: bool,
    pub thumbwheel_sensitivity: i32,
}

/// `button` is bound, and not to its default action.
pub open spec fn nondefault(
    bindings: Map<ButtonId, Action>,
    defaults: Map<ButtonId, Action>,
    button: ButtonId,
) -> bool {
    bindings.dom().contains(button) && !(defaults.dom().contains(button) && defaults[button] == bindings[button])
}

/// The buttons that can be taken over as plain buttons: the standard ones, and
/// the dedicated gesture button while it owns no gestures.
pub open spec fn divertable(standard: Seq<(u16, ButtonId)>, owns_gestures: bool) -> Seq<(u16, ButtonId)> {
    if owns_gestures {
        standard
    } else {
        standard.push((GESTURE_BUTTON_CID, ButtonId::GestureButton))
    }
}

/// A button is taken over if its action is not the default and the OS hook does
/// not need to see it.
pub open spec fn is_diverted(
    bindings: Map<ButtonId, Action>,
    defaults: Map<ButtonId, Action>,
    oshook: Seq<ButtonId>,
) -> spec_fn((u16, ButtonId)) -> bool {
    |entry: (u16, ButtonId)| !oshook.contains(entry.1) && nondefault(bindings, defaults, entry.1)
}

fn is_nondefault(bindings: &Table<ButtonId, Action>, defaults: &Table<ButtonId, Action>, button: ButtonId) -> (r: bool)
    ensures
        r == nondefault(bindings@, defaults@, button),
{
    match bindings.get(&button) {
        Some(action) => match defaults.get(&button) {
            Some(usual) => *usual != *action,
            None => true,
        },
        None => false,
    }
}

/// Plans the capture of one device. `projected` are its bindings, `defaults` the
/// default action of each button, `standard` the buttons that can be taken over.
pub fn plan_for_device(
    config: &Config,
    config_key: &str,
    route: DeviceRoute,
    projected: ProjectedBindings,
    defaults: &Table<ButtonId, Action>,
    standard: &Vec<(u16, ButtonId)>,
) -> (r: DeviceCapturePlan)
    ensures
        r.config_key@ == config_key@,
        r.route == route,
        r.bindings == projected.bindings,
        r.gesture_bindings == projected.gesture_bindings,
        r.divert_buttons@ == divertable(standard@, projected.gesture_bindings@.len() > 0).filter(
            is_diverted(projected.bindings@, defaults@, projected.oshook@),
        ),
        r.thumbwheel_bindings_nondefault == (nondefault(projected.bindings@, defaults@, ButtonId::Thumbwheel)
            || nondefault(projected.bindings@, defaults@, ButtonId::ThumbwheelScrollUp) || nondefault(
            projected.bindings@,
            defaults@,
            ButtonId::ThumbwheelScrollDown,
        )),
        r.thumbwheel_sensitivity == config.sensitivity(config_key@),
{
    let ghost keep = is_diverted(projected.bindings@, defaults@, projected.oshook@);
    let ghost all = divertable(standard@, projected.gesture_bindings@.len() > 0);
    let mut candidates: Vec<(u16, ButtonId)> = Vec::new();
    let mut i: usize = 0;
    while i < standard.len()
        invariant
            i <= standard@.len(),
            candidates@ == standard@.take(i as int),
        decreases standard@.len() - i,
    {
        candidates.push(standard[i]);
        assert(standard@.take(i + 1) =~= standard@.take(i as int).push(standard@[i as int]));
        i += 1;
    }
    assert(standard@.take(standard@.len() as int) =~= standard@);
    if projected.gesture_bindings.len() == 0 {
        candidates.push((GESTURE_BUTTON_CID, ButtonId::GestureButton));
    }
    assert(candidates@ =~= all);
    let mut divert_buttons: Vec<(u16, ButtonId)> = Vec::new();
    let mut j: usize = 0;
    proof {
        reveal(Seq::filter);
        assert(divert_buttons@ =~= all.take(0).filter(keep));
    }
    while j < candidates.len()
        invariant
            j <= candidates@.len(),
            candidates@ == all,
            keep == is_diverted(projected.bindings@, defaults@, projected.oshook@),
            divert_buttons@ == all.take(j as int).filter(keep),
        decreases candidates@.len() - j,
    {
        let entry: (u16, ButtonId) = candidates[j];
        proof {
            lemma_filter_step(all, j as int, keep);
            assert(projected.oshook.deep_view() =~= projected.oshook@);
        }
        if !list_contains(&projected.oshook, &entry.1) && is_nondefault(&projected.bindings, defaults, entry.1) {
            divert_buttons.push(entry);
        }
        j += 1;
    }
    assert(all.take(candidates@.len() as int) =~= all);
    let thumbwheel_bindings_nondefault = is_nondefault(&projected.bindings, defaults, ButtonId::Thumbwheel)
        || is_nondefault(&projected.bindings, defaults, ButtonId::ThumbwheelScrollUp) || is_nondefault(
        &projected.bindings,
        defaults,
        ButtonId::ThumbwheelScrollDown,
    );
    DeviceCapturePlan {
        config_key: config_key.to_owned(),
        route,
        bindings: projected.bindings,
        gesture_bindings: projected.gesture_bindings,
        divert_buttons,
        thumbwheel_bindings_nondefault,
        thumbwheel_sensitivity: config.thumbwheel_sensitivity(config_key),
    }
}

/// The dedicated gesture button is never taken over as a plain button while it
/// owns the gestures.
pub proof fn law_gesture_owner_not_diverted(
    standard: Seq<(u16, ButtonId)>,
    bindings: Map<ButtonId, Action>,
    defaults: Map<ButtonId, Action>,
    oshook: Seq<ButtonId>,
)
    requires
        forall|i: int| 0 <= i < standard.len() ==> (#[trigger] standard[i]).0 != GESTURE_BUTTON_CID,
    ensures
        forall|entry: (u16, ButtonId)|
            #[trigger] divertable(standard, true).filter(is_diverted(bindings, defaults, oshook)).contains(entry)
                ==> entry.0 != GESTURE_BUTTON_CID,
{
    let keep = is_diverted(bindings, defaults, oshook);
    assert forall|entry: (u16, ButtonId)| #[trigger] divertable(standard, true).filter(keep).contains(entry)
        implies entry.0 != GESTURE_BUTTON_CID by {
        lemma_filter_contains(standard, keep, entry);
    }
}

/// A button with its default action, or with none, stays with the device, and so
/// does a button whose gestures the OS hook follows.
pub proof fn law_default_and_hooked_buttons_stay_native(
    standard: Seq<(u16, ButtonId)>,
    owns_gestures: bool,
    bindings: Map<ButtonId, Action>,
    defaults: Map<ButtonId, Action>,
    oshook: Seq<ButtonId>,
    entry: (u16, ButtonId),
)
    requires
        !nondefault(bindings, defaults, entry.1) || oshook.contains(entry.1),
    ensures
        !divertable(standard, owns_gestures).filter(is_diverted(bindings, defaults, oshook)).contains(entry),
{
    let keep = is_diverted(bindings, defaults, oshook);
    let all = divertable(standard, owns_gestures);
    lemma_filter_contains(all, keep, entry);
}

/// Exactly those buttons are taken over that can be, are bound to an action
/// other than their default, whatever it is, and are not followed by the OS
/// hook. The dedicated gesture button is one of those that can be while no
/// direction is bound.
pub proof fn law_rebound_buttons_are_taken_over(
    standard: Seq<(u16, ButtonId)>,
    gestures: Map<GestureDirection, Action>,
    bindings: Map<ButtonId, Action>,
    defaults: Map<ButtonId, Action>,
    oshook: Seq<ButtonId>,
    entry: (u16, ButtonId),
)
    ensures
        divertable(standard, gestures.len() > 0).filter(is_diverted(bindings, defaults, oshook)).contains(entry) <==> {
            &&& standard.contains(entry) || (gestures.len() == 0 && entry == (
                GESTURE_BUTTON_CID,
                ButtonId::GestureButton,
            ))
            &&& bindings.dom().contains(entry.1)
            &&& defaults.dom().contains(entry.1) ==> bindings[entry.1] != defaults[entry.1]
            &&& !oshook.contains(entry.1)
        },
{
    let all = divertable(standard, gestures.len() > 0);
    lemma_filter_contains(all, is_diverted(bindings, defaults, oshook), entry);
    lemma_push_contains(standard, (GESTURE_BUTTON_CID, ButtonId::GestureButton));
}

/// The buttons are taken over in their order, each as often as it is listed: the
/// standard ones first, each for itself.
pub proof fn law_buttons_are_taken_over_in_order(
    first: Seq<(u16, ButtonId)>,
    second: Seq<(u16, ButtonId)>,
    owns_gestures: bool,
    bindings: Map<ButtonId, Action>,
    defaults: Map<ButtonId, Action>,
    oshook: Seq<ButtonId>,
)
    ensures
        ({
            let keep = is_diverted(bindings, defaults, oshook);
            divertable(first + second, owns_gestures).filter(keep) == divertable(first, true).filter(keep)
                + divertable(second, owns_gestures).filter(keep)
        }),
{
    let keep = is_diverted(bindings, defaults, oshook);
    let own = (GESTURE_BUTTON_CID, ButtonId::GestureButton);
    Seq::filter_distributes_over_add(first, divertable(second, owns_gestures), keep);
    assert((first + second).push(own) =~= first + second.push(own));
}

/// A binding of the thumb wheel counts as its own as soon as it differs from the
/// default.
pub proof fn law_rebound_differs_from_the_default(
    bindings: Map<ButtonId, Action>,
    defaults: Map<ButtonId, Action>,
    button: ButtonId,
)
    ensures
        bindings.dom().contains(button) && defaults.dom().contains(button) ==> (nondefault(bindings, defaults, button)
            <==> bindings[button] != defaults[button]),
        bindings.dom().contains(button) && !defaults.dom().contains(button) ==> nondefault(bindings, defaults, button),
        !bindings.dom().contains(button) ==> !nondefault(bindings, defaults, button),
{
}

/// The control ids of the gesture button and of the panel.
pub proof fn law_ids_of_the_gesture_controls()
    ensures
        GESTURE_BUTTON_CID == 0xc3,
        HAPTIC_PANEL_CID == 0x1a0,
{
}

} // verus!
