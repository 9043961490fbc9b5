//! Buttons, gesture directions and the actions bound to them.

use vstd::prelude::*;
use crate::value::Value;

verus! {

/// A control that can be bound.
#[derive(Clone, Copy, Debug, PartialEq, Eq, Structural)]
pub enum ButtonId {
    LeftClick,
    RightClick,
    MiddleClick,
    Back,
    Forward,
    DpiToggle,
    /// The tap of the thumb wheel.
    Thumbwheel,
    ThumbwheelScrollUp,
    ThumbwheelScrollDown,
    GestureButton,
    HapticPanel,
}

impl DeepView for ButtonId {
    type V = ButtonId;

    open spec fn deep_view(&self) -> ButtonId {
        *self
    }
}

impl Value for ButtonId {
    fn same(&self, other: &Self) -> (r: bool) {
        *self == *other
    }

    fn copy(&self) -> (r: Self) {
        *self
    }
}

/// What a gesture of the gesture button amounts to.
#[derive(Clone, Copy, Debug, PartialEq, Eq, Structural)]
pub enum GestureDirection {
    Up,
    Down,
    Left,
    Right,
    /// A tap without a swipe.
    Click,
}

impl DeepView for GestureDirection {
    type V = GestureDirection;

    open spec fn deep_view(&self) -> GestureDirection {
        *self
    }
}

impl Value for GestureDirection {
    fn same(&self, other: &Self) -> (r: bool) {
        *self == *other
    }

    fn copy(&self) -> (r: Self) {
        *self
    }
}

/// What a control does when it fires.
#[derive(Clone, Copy, Debug, PartialEq, Eq, Structural)]
pub enum Action {
    /// Captured, and nothing happens.
    NoAction,
    HorizontalScrollLeft,
    HorizontalScrollRight,
    CycleDpiPresets,
    VolumeUp,
    /// Any other action, by its number in the action catalogue.
    Other(u32),
}

impl DeepView for Action {
    type V = Action;

    open spec fn deep_view(&self) -> Action {
        *self
    }
}

impl Value for Action {
    fn same(&self, other: &Self) -> (r: bool) {
        *self == *other
    }

    fn copy(&self) -> (r: Self) {
        *self
    }
}

/// Buttons, directions and actions mean themselves.
pub proof fn law_controls_mean_themselves(button: ButtonId, direction: GestureDirection, action: Action)
    ensures
        button.deep_view() == button,
        direction.deep_view() == direction,
        action.deep_view() == action,
{
}

} // verus!
