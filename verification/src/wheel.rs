//! The thumb wheel: turning rotation into scrolled lines or into actions.
//!
//! Lines are counted in single precision. A multiplier is a whole number over
//! the default sensitivity, which is below sixteen, so it is at least 2^-4 in
//! size if it is not zero; with 24 significant bits it is a multiple of 2^-27,
//! and so is all that is made of multipliers by multiplying with whole numbers
//! and adding.

use vstd::prelude::*;
use crate::buttons::Action;
use crate::config::DEFAULT_THUMBWHEEL_SENSITIVITY;
use crate::single::{
    law_short_numbers_are_exact, lemma_rounded_within, lemma_sizes, lemma_sum_within, single, size, to_single, LARGEST,
    ONE,
};
use vstd::arithmetic::power2::pow2;

verus! {

/// After a pause of more than this many nanoseconds, what was turned towards an
/// action is forgotten.
pub const ACTION_DECAY: u64 = 300_000_000;

/// For this many nanoseconds after an action has fired, it does not fire again.
pub const ACTION_COOLDOWN: u64 = 200_000_000;

/// The largest rotation that one event reports.
pub const MAX_MAGNITUDE: i32 = 32_768;

/// How far the wheel must be turned for an action to fire: less with a higher
/// sensitivity, and at least by one increment.
pub open spec fn threshold(sensitivity: i32) -> int {
    let t = 2 * DEFAULT_THUMBWHEEL_SENSITIVITY - sensitivity;
    if t >= 1 {
        t
    } else {
        1
    }
}

/// A sensitivity with which no sum of increments leaves the machine's range.
pub open spec fn usable(sensitivity: i32) -> bool {
    threshold(sensitivity) + MAX_MAGNITUDE <= i32::MAX
}

/// How far the wheel must be turned for an action to fire.
pub fn action_threshold(sensitivity: i32) -> (r: i32)
    requires
        threshold(sensitivity) <= i32::MAX,
    ensures
        r == threshold(sensitivity),
{
    let t: i64 = 2 * (DEFAULT_THUMBWHEEL_SENSITIVITY as i64) - sensitivity as i64;
    if t >= 1 {
        t as i32
    } else {
        1
    }
}

/// A higher sensitivity never asks for more increments, and one is always asked
/// for.
pub proof fn law_threshold_falls_with_sensitivity(low: i32, high: i32)
    requires
        low <= high,
    ensures
        1 <= threshold(high) <= threshold(low),
{
}

/// What is pending for one direction of the wheel.
#[derive(Debug, PartialEq, Eq)]
pub struct WheelDirection {
    /// The lines that are left to scroll, a number of single precision as a
    /// multiple of 2^-27.
    pub scroll: i128,
    /// The increments turned towards an action.
    pub action: i32,
    /// When the last rotation came, in nanoseconds.
    pub last_event: Option<u64>,
    /// When the action last fired, in nanoseconds.
    pub last_fired: Option<u64>,
}

/// What a rotation leads to.
#[derive(Clone, Copy, Debug, PartialEq, Eq, Structural)]
pub enum WheelOutput {
    Idle,
    /// Scroll by this many lines: to the right if positive, else to the left.
    Scroll(i32),
    FireAction,
}

/// How much later than `earlier` it is at `now`; zero if it is not later.
pub open spec fn elapsed(now: u64, earlier: u64) -> int {
    if now >= earlier {
        now - earlier
    } else {
        0
    }
}

impl WheelDirection {
    /// Nothing is pending.
    pub fn new() -> (r: Self)
        ensures
            r == (WheelDirection { scroll: 0, action: 0, last_event: None, last_fired: None }),
    {
        WheelDirection { scroll: 0, action: 0, last_event: None, last_fired: None }
    }

    /// One more event stays within the machine's range.
    pub open spec fn has_room(&self) -> bool {
        0 <= self.action && self.action + MAX_MAGNITUDE <= i32::MAX && self.can_scroll()
    }

    /// What is left to scroll is within the machine's range. It stays so however
    /// the wheel is turned.
    pub open spec fn can_scroll(&self) -> bool {
        2 * size(self.scroll as int) <= LARGEST
    }

    /// The wheel has rested for so long that its progress is forgotten.
    pub open spec fn rested(&self, now: u64) -> bool {
        self.last_event matches Some(t) && elapsed(now, t) > ACTION_DECAY
    }

    /// The action fired a moment ago.
    pub open spec fn cooling(&self, now: u64) -> bool {
        self.last_fired matches Some(t) && elapsed(now, t) < ACTION_COOLDOWN
    }

    /// The increments that count at `now`.
    pub open spec fn progress(&self, now: u64) -> int {
        if self.rested(now) {
            0
        } else {
            self.action as int
        }
    }

    /// The lines that are pending after a rotation.
    pub open spec fn pending(&self, magnitude: i32, sensitivity: i32) -> int {
        single(self.scroll + lines_turned(magnitude, sensitivity), 1)
    }
}

/// How many lines one increment counts: one at the default sensitivity, and in
/// proportion at others.
pub open spec fn multiplier(sensitivity: i32) -> int {
    single(single(sensitivity as int, 1) * ONE, DEFAULT_THUMBWHEEL_SENSITIVITY as nat)
}

/// How many lines a rotation counts.
pub open spec fn lines_turned(magnitude: i32, sensitivity: i32) -> int {
    single(single(magnitude as int, 1) * multiplier(sensitivity), 1)
}

/// A whole number of single precision from one of the machine's.
fn whole_single(n: i32) -> (r: i128)
    ensures
        r == single(n as int, 1),
        size(r as int) <= 0x1_0000_0000,
{
    proof {
        lemma_sizes();
        lemma_rounded_within(size(n as int), 1, 32);
    }
    to_single(n as i128, 1)
}

/// How many lines one increment counts, as a multiple of 2^-27.
pub fn scroll_multiplier(sensitivity: i32) -> (r: i128)
    ensures
        r == multiplier(sensitivity),
        size(r as int) <= 0x100_0000_0000_0000,
{
    let whole: i128 = whole_single(sensitivity);
    proof {
        lemma_sizes();
        lemma_rounded_within(size(whole * ONE), DEFAULT_THUMBWHEEL_SENSITIVITY as nat, 56);
    }
    to_single(whole * ONE, DEFAULT_THUMBWHEEL_SENSITIVITY as i128)
}

/// How many lines a rotation counts, as a multiple of 2^-27.
fn turn_lines(magnitude: i32, sensitivity: i32) -> (r: i128)
    ensures
        r == lines_turned(magnitude, sensitivity),
        size(r as int) <= pow2(89),
{
    let (whole, each): (i128, i128) = (whole_single(magnitude), scroll_multiplier(sensitivity));
    proof {
        lemma_sizes();
        assert(size(whole * each) <= 0x1_0000_0000 * 0x100_0000_0000_0000) by (nonlinear_arith)
            requires
                -0x1_0000_0000 <= whole <= 0x1_0000_0000,
                -0x100_0000_0000_0000 <= each <= 0x100_0000_0000_0000,
                size(whole * each) == whole * each || size(whole * each) == -(whole * each),
        ;
        lemma_rounded_within(size(whole * each), 1, 89);
    }
    to_single(whole * each, 1)
}

/// The lines that are pending after `more` lines.
fn add_lines(scroll: i128, more: i128) -> (r: i128)
    requires
        2 * size(scroll as int) <= LARGEST,
        size(more as int) <= pow2(89),
    ensures
        r == single(scroll + more, 1),
        2 * size(r as int) <= LARGEST,
{
    proof {
        lemma_sizes();
        lemma_sum_within(size(scroll + more), 114);
    }
    to_single(scroll + more, 1)
}

/// `x` brought into the range of `i32` from above.
pub open spec fn at_most_max(x: int) -> int {
    if x <= i32::MAX {
        x
    } else {
        i32::MAX as int
    }
}

/// The action scrolls.
pub open spec fn scrolls(action: Action) -> bool {
    action is HorizontalScrollRight || action is HorizontalScrollLeft
}

/// The action is neither to do nothing nor to scroll.
pub open spec fn is_custom(action: Action) -> bool {
    !(action is NoAction) && !scrolls(action)
}

/// What a rotation by `magnitude` with a scrolling action does: as many whole
/// lines as are pending are scrolled, and the rest stays pending.
pub open spec fn scroll_step(
    before: WheelDirection,
    after: WheelDirection,
    action: Action,
    magnitude: i32,
    sensitivity: i32,
    out: WheelOutput,
) -> bool {
    let pending = before.pending(magnitude, sensitivity);
    &&& after == (WheelDirection { scroll: after.scroll, ..before })
    &&& if pending >= ONE {
        &&& after.scroll == pending % (ONE as int)
        &&& out == WheelOutput::Scroll(
            if action is HorizontalScrollRight {
                at_most_max(pending / (ONE as int)) as i32
            } else {
                (-at_most_max(pending / (ONE as int))) as i32
            },
        )
    } else {
        &&& after.scroll == pending
        &&& out == WheelOutput::Idle
    }
}

/// What a rotation by `magnitude` with another action does: the action fires
/// once the threshold is reached, but not while it cools down.
pub open spec fn action_step(
    before: WheelDirection,
    after: WheelDirection,
    magnitude: i32,
    sensitivity: i32,
    now: u64,
    out: WheelOutput,
) -> bool {
    let turned = before.progress(now) + magnitude;
    &&& after.scroll == before.scroll
    &&& after.last_event == Some(now)
    &&& if before.cooling(now) {
        &&& after.action == before.progress(now)
        &&& after.last_fired == before.last_fired
        &&& out == WheelOutput::Idle
    } else if turned >= threshold(sensitivity) {
        &&& after.action == 0
        &&& after.last_fired == Some(now)
        &&& out == WheelOutput::FireAction
    } else {
        &&& after.action == turned
        &&& after.last_fired == before.last_fired
        &&& out == WheelOutput::Idle
    }
}

/// Turns one direction of the wheel by `magnitude` increments at the time `now`,
/// and says what that leads to.
pub fn advance(dir: &mut WheelDirection, action: &Action, magnitude: i32, sensitivity: i32, now: u64) -> (r:
    WheelOutput)
    requires
        scrolls(*action) ==> old(dir).can_scroll(),
        is_custom(*action) && !old(dir).cooling(now) ==> threshold(sensitivity) <= i32::MAX,
        is_custom(*action) && !old(dir).cooling(now) ==> i32::MIN <= old(dir).progress(now) + magnitude <= i32::MAX,
    ensures
        old(dir).can_scroll() ==> final(dir).can_scroll(),
        action is NoAction ==> r == WheelOutput::Idle && *final(dir) == *old(dir),
        scrolls(*action) ==> scroll_step(*old(dir), *final(dir), *action, magnitude, sensitivity, r),
        is_custom(*action) ==> action_step(*old(dir), *final(dir), magnitude, sensitivity, now, r),
{
    match action {
        Action::NoAction => WheelOutput::Idle,
        Action::HorizontalScrollRight | Action::HorizontalScrollLeft => {
            let pending: i128 = add_lines(dir.scroll, turn_lines(magnitude, sensitivity));
            if pending >= ONE {
                dir.scroll = pending % ONE;
                let lines: i128 = pending / ONE;
                let lines: i32 = if lines <= i32::MAX as i128 {
                    lines as i32
                } else {
                    i32::MAX
                };
                if matches!(action, Action::HorizontalScrollRight) {
                    WheelOutput::Scroll(lines)
                } else {
                    WheelOutput::Scroll(-lines)
                }
            } else {
                dir.scroll = pending;
                WheelOutput::Idle
            }
        },
        _ => {
            if let Some(t) = dir.last_event {
                if now.saturating_sub(t) > ACTION_DECAY {
                    dir.action = 0;
                }
            }
            dir.last_event = Some(now);
            if let Some(t) = dir.last_fired {
                if now.saturating_sub(t) < ACTION_COOLDOWN {
                    return WheelOutput::Idle;
                }
            }
            dir.action = dir.action + magnitude;
            if dir.action >= action_threshold(sensitivity) {
                dir.action = 0;
                dir.last_fired = Some(now);
                WheelOutput::FireAction
            } else {
                WheelOutput::Idle
            }
        },
    }
}

/// One rotation with a scrolling action, and what it led to.
pub struct ScrollStep {
    pub action: Action,
    pub magnitude: i32,
    pub sensitivity: i32,
    pub out: WheelOutput,
}

impl ScrollStep {
    /// How many lines were scrolled in the direction of the action.
    pub open spec fn lines(self) -> int {
        match self.out {
            WheelOutput::Scroll(lines) => if self.action is HorizontalScrollRight {
                lines as int
            } else {
                -lines
            },
            _ => 0,
        }
    }

    /// What the rotation adds to what is pending in `before`.
    pub open spec fn added(self, before: WheelDirection) -> int {
        before.pending(self.magnitude, self.sensitivity) - before.scroll
    }

    /// The rotation takes `before` to `after`, and brings at most as many lines
    /// as can be scrolled at once.
    pub open spec fn leads(self, before: WheelDirection, after: WheelDirection) -> bool {
        &&& scrolls(self.action)
        &&& scroll_step(before, after, self.action, self.magnitude, self.sensitivity, self.out)
        &&& before.pending(self.magnitude, self.sensitivity) / (ONE as int) <= i32::MAX
    }
}

/// Scrolling to the right or to the left takes away from what is pending what is
/// scrolled, and nothing else. What stays pending is less than a line.
pub proof fn law_scroll_keeps_the_rest(before: WheelDirection, after: WheelDirection, step: ScrollStep)
    requires
        step.leads(before, after),
    ensures
        step.lines() >= 0,
        after.scroll < ONE,
        step.lines() * ONE + after.scroll == before.scroll + step.added(before),
{
    let pending = before.pending(step.magnitude, step.sensitivity);
    vstd::arithmetic::div_mod::lemma_fundamental_div_mod(pending, ONE as int);
}

/// The lines of the first `n` rotations.
pub open spec fn lines_of(steps: Seq<ScrollStep>, n: int) -> int
    decreases n,
{
    if n <= 0 {
        0
    } else {
        lines_of(steps, n - 1) + steps[n - 1].lines()
    }
}

/// What the first `n` rotations add to what is pending.
pub open spec fn added_by(states: Seq<WheelDirection>, steps: Seq<ScrollStep>, n: int) -> int
    decreases n,
{
    if n <= 0 {
        0
    } else {
        added_by(states, steps, n - 1) + steps[n - 1].added(states[n - 1])
    }
}

/// Over any run of rotations, all lines and what stays pending at the end add up
/// to what was pending at the start and all that was added.
pub proof fn law_run_of_scrolls_keeps_the_rest(states: Seq<WheelDirection>, steps: Seq<ScrollStep>)
    requires
        states.len() == steps.len() + 1,
        forall|i: int| 0 <= i < steps.len() ==> (#[trigger] steps[i]).leads(states[i], states[i + 1]),
    ensures
        lines_of(steps, steps.len() as int) * ONE + states.last().scroll == states.first().scroll + added_by(
            states,
            steps,
            steps.len() as int,
        ),
{
    lemma_run_of_scrolls(states, steps, steps.len() as int);
}

proof fn lemma_run_of_scrolls(states: Seq<WheelDirection>, steps: Seq<ScrollStep>, n: int)
    requires
        0 <= n <= steps.len(),
        states.len() == steps.len() + 1,
        forall|i: int| 0 <= i < steps.len() ==> (#[trigger] steps[i]).leads(states[i], states[i + 1]),
    ensures
        lines_of(steps, n) * ONE + states[n].scroll == states[0].scroll + added_by(states, steps, n),
    decreases n,
{
    if n > 0 {
        lemma_run_of_scrolls(states, steps, n - 1);
        assert(steps[n - 1].leads(states[n - 1], states[n]));
        law_scroll_keeps_the_rest(states[n - 1], states[n], steps[n - 1]);
    }
}

/// At the default sensitivity one increment counts one line, and at `k` times
/// half of it `k` half lines, up to the length of a number.
pub proof fn law_multiplier_is_in_proportion(k: int)
    requires
        size(7 * k) < 0x100_0000,
    ensures
        multiplier((7 * k) as i32) == k * (ONE / 2),
        multiplier(DEFAULT_THUMBWHEEL_SENSITIVITY) == ONE,
{
    lemma_multiplier(k);
    lemma_multiplier(2);
}

/// What is turned in half lines is added without loss, as long as a number can
/// hold that many of them: nothing of it gets lost to rounding.
pub proof fn law_half_lines_add_up(before: WheelDirection, halves: int, magnitude: i32, k: int)
    requires
        before.scroll == halves * (ONE / 2),
        size(magnitude as int) < 0x100_0000,
        size(7 * k) < 0x100_0000,
        size(magnitude * k) < 0x100_0000,
        size(halves + magnitude * k) < 0x100_0000,
    ensures
        before.pending(magnitude, (7 * k) as i32) == (halves + magnitude * k) * (ONE / 2),
{
    let half = pow2(26);
    vstd::arithmetic::power2::lemma2_to64();
    lemma_multiplier(k);
    lemma_whole_is_exact(magnitude as int);
    assert(magnitude * (k * half) == (magnitude * k) * half) by (nonlinear_arith);
    law_short_numbers_are_exact(magnitude * k, 26);
    assert(halves * half + (magnitude * k) * half == (halves + magnitude * k) * half) by (nonlinear_arith);
    law_short_numbers_are_exact(halves + magnitude * k, 26);
}

proof fn lemma_whole_is_exact(n: int)
    requires
        size(n) < 0x100_0000,
    ensures
        single(n, 1) == n,
{
    vstd::arithmetic::power2::lemma2_to64();
    law_short_numbers_are_exact(n, 0);
}

proof fn lemma_multiplier(k: int)
    requires
        size(7 * k) < 0x100_0000,
    ensures
        multiplier((7 * k) as i32) == k * (ONE / 2),
{
    vstd::arithmetic::power2::lemma2_to64();
    lemma_whole_is_exact(7 * k);
    let m = size(k * 0x400_0000);
    assert(single(7 * k, 1) * ONE == 14 * (k * 0x400_0000)) by {
        assert(ONE == 0x800_0000);
    }
    law_short_numbers_are_exact(k, 26);
    let u = crate::single::spacing(m, 1);
    vstd::arithmetic::power2::lemma_pow2_pos(crate::single::excess(m));
    assert(m / 1 == m && 1 * u == u);
    assert((14 * m) / 14 == m);
    let (q, rest) = (m / u, m % u);
    vstd::arithmetic::div_mod::lemma_fundamental_div_mod(m as int, u as int);
    assert(14 * m == q * (14 * u) + 14 * rest) by (nonlinear_arith)
        requires
            m == u * q + rest,
    ;
    vstd::arithmetic::div_mod::lemma_fundamental_div_mod_converse(
        14 * m as int,
        14 * u as int,
        q as int,
        14 * rest as int,
    );
}

/// One rotation with another action, and what it led to.
pub struct ActionStep {
    pub magnitude: i32,
    pub sensitivity: i32,
    pub now: u64,
    pub out: WheelOutput,
}

impl ActionStep {
    /// The rotation takes `before` to `after`.
    pub open spec fn leads(self, before: WheelDirection, after: WheelDirection) -> bool {
        action_step(before, after, self.magnitude, self.sensitivity, self.now, self.out)
    }
}

/// An action does not fire again while it cools down, however often the wheel is
/// turned meanwhile, and nothing of that counts towards the next time.
pub proof fn law_no_fire_while_cooling(
    before: WheelDirection,
    fired: ActionStep,
    states: Seq<WheelDirection>,
    steps: Seq<ActionStep>,
    i: int,
)
    requires
        states.len() == steps.len() + 1,
        fired.out == WheelOutput::FireAction,
        fired.leads(before, states[0]),
        forall|k: int| 0 <= k < steps.len() ==> (#[trigger] steps[k]).leads(states[k], states[k + 1]),
        forall|k: int| 0 <= k < steps.len() ==> elapsed((#[trigger] steps[k]).now, fired.now) < ACTION_COOLDOWN,
        0 <= i < steps.len(),
    ensures
        steps[i].out == WheelOutput::Idle,
        states[i + 1].action == 0,
        states[i + 1].last_fired == Some(fired.now),
    decreases i,
{
    if i > 0 {
        law_no_fire_while_cooling(before, fired, states, steps, i - 1);
    }
    assert(steps[i].leads(states[i], states[i + 1]));
}

/// Progress towards an action is forgotten over a long pause: what was turned
/// before it does not count.
pub proof fn law_rest_forgets_progress(
    before: WheelDirection,
    after: WheelDirection,
    magnitude: i32,
    sensitivity: i32,
    now: u64,
    out: WheelOutput,
)
    requires
        before.rested(now),
        magnitude < threshold(sensitivity),
        action_step(before, after, magnitude, sensitivity, now, out),
    ensures
        out == WheelOutput::Idle,
{
}

/// The machine's range is never left: an event leaves room for the next one.
pub proof fn law_room_is_kept(
    before: WheelDirection,
    after: WheelDirection,
    magnitude: i32,
    sensitivity: i32,
    now: u64,
    out: WheelOutput,
)
    requires
        before.has_room(),
        0 <= magnitude <= MAX_MAGNITUDE,
        usable(sensitivity),
        action_step(before, after, magnitude, sensitivity, now, out),
    ensures
        after.has_room(),
{
}

/// What is pending for both directions. They are bound to actions of their own,
/// so turning back takes nothing away from the other direction.
#[derive(Debug, PartialEq, Eq)]
pub struct WheelAccumulators {
    pub up: WheelDirection,
    pub down: WheelDirection,
}

impl WheelAccumulators {
    /// Nothing is pending.
    pub fn new() -> (r: Self)
        ensures
            r == unturned(),
    {
        WheelAccumulators { up: WheelDirection::new(), down: WheelDirection::new() }
    }

    /// One more event stays within the machine's range.
    pub open spec fn has_room(&self) -> bool {
        self.up.has_room() && self.down.has_room()
    }
}

/// Nothing is pending for either direction.
pub open spec fn unturned() -> WheelAccumulators {
    let none = WheelDirection { scroll: 0, action: 0, last_event: None, last_fired: None };
    WheelAccumulators { up: none, down: none }
}

/// Threshold and sensitivity add up to twice the default sensitivity, as long as
/// that leaves at least one increment.
pub proof fn law_threshold_makes_up_for_sensitivity(sensitivity: i32)
    ensures
        sensitivity < 28 ==> threshold(sensitivity) + sensitivity == 28,
        sensitivity >= 28 ==> threshold(sensitivity) == 1,
        threshold(DEFAULT_THUMBWHEEL_SENSITIVITY) == DEFAULT_THUMBWHEEL_SENSITIVITY,
{
}

/// An action fires exactly if what was turned, together with the sensitivity,
/// makes up twice the default sensitivity, and the last time that it fired is at
/// least 200 milliseconds ago. What was turned before a pause of more than 300
/// milliseconds does not count, nor does what is turned within the 200
/// milliseconds.
pub proof fn law_action_fires_when_turned_far_enough(
    before: WheelDirection,
    after: WheelDirection,
    magnitude: i32,
    sensitivity: i32,
    now: u64,
    out: WheelOutput,
)
    requires
        action_step(before, after, magnitude, sensitivity, now, out),
    ensures
        ({
            let paused = before.last_event is Some && now - before.last_event->0 > 300_000_000;
            let early = before.last_fired is Some && now - before.last_fired->0 < 200_000_000;
            let counted = if paused {
                0
            } else {
                before.action as int
            };
            let fires = !early && counted + magnitude >= 1 && counted + magnitude + sensitivity >= 28;
            &&& fires ==> out == WheelOutput::FireAction && after.action == 0 && after.last_fired == Some(now)
            &&& !fires ==> out == WheelOutput::Idle && after.last_fired == before.last_fired
            &&& early ==> after.action == counted
            &&& !early && !fires ==> after.action == counted + magnitude
            &&& after.last_event == Some(now)
            &&& after.scroll == before.scroll
        }),
{
}

/// To the right and to the left the same number of lines is scrolled, at least
/// one, with opposite signs, and all lines that are complete or as many as can be
/// told. As long as no line is complete, nothing is scrolled. What was turned
/// towards an action is left alone.
pub proof fn law_left_mirrors_right(
    before: WheelDirection,
    right: WheelDirection,
    left: WheelDirection,
    magnitude: i32,
    sensitivity: i32,
    to_right: WheelOutput,
    to_left: WheelOutput,
)
    requires
        scroll_step(before, right, Action::HorizontalScrollRight, magnitude, sensitivity, to_right),
        scroll_step(before, left, Action::HorizontalScrollLeft, magnitude, sensitivity, to_left),
    ensures
        right == left,
        right.action == before.action && right.last_event == before.last_event && right.last_fired
            == before.last_fired,
        right.scroll < ONE,
        match to_right {
            WheelOutput::Scroll(lines) => {
                &&& lines >= 1
                &&& to_left == WheelOutput::Scroll((-lines) as i32)
                &&& right.scroll >= 0
                &&& lines < i32::MAX ==> lines * ONE + right.scroll == before.pending(magnitude, sensitivity)
                &&& lines * ONE + right.scroll <= before.pending(magnitude, sensitivity)
            },
            WheelOutput::Idle => to_left == WheelOutput::Idle && right.scroll == before.pending(magnitude, sensitivity),
            WheelOutput::FireAction => false,
        },
{
    let pending = before.pending(magnitude, sensitivity);
    vstd::arithmetic::div_mod::lemma_fundamental_div_mod(pending, ONE as int);
}

/// One increment counts the sensitivity over the default one, a rotation as many
/// increments as it has, and what is pending grows by that: each up to one part
/// in 2^24, the length of a number.
pub proof fn law_lines_grow_in_proportion(before: WheelDirection, magnitude: i32, sensitivity: i32)
    requires
        size(sensitivity as int) < 0x100_0000,
        size(magnitude as int) < 0x100_0000,
    ensures
        ({
            let (each, lines) = (multiplier(sensitivity), lines_turned(magnitude, sensitivity));
            let pending = before.pending(magnitude, sensitivity);
            &&& size(14 * each - sensitivity * ONE) * 0x100_0000 <= size(sensitivity * ONE)
            &&& size(lines - magnitude * each) * 0x100_0000 <= size(magnitude * each)
            &&& size(pending - (before.scroll + lines)) * 0x100_0000 <= size(before.scroll + lines)
        }),
{
    let each = multiplier(sensitivity);
    let n = sensitivity * ONE;
    lemma_whole_is_exact(sensitivity as int);
    lemma_whole_is_exact(magnitude as int);
    crate::single::law_rounding_is_to_the_nearest(n, 14);
    crate::single::law_spacing_leaves_a_fixed_length(size(n), 14);
    let u = crate::single::spacing(size(n), 14);
    let off = size(each * 14 - n);
    assert(2 * off <= 14 * u);
    if sensitivity == 0 {
        assert(n == 0);
        assert(u == 1);
        crate::single::law_rounding_is_the_same_for_both_signs(0, 14);
        assert(each == 0);
    } else {
        assert(size(n) >= 0x800_0000);
        if u > 1 {
            assert(14 * (size(n) / 14) <= size(n));
        }
    }
    crate::single::law_error_is_relative(magnitude * each);
    crate::single::law_error_is_relative(before.scroll + lines_turned(magnitude, sensitivity));
}

/// Two actions scroll and one does nothing; all others are run.
pub proof fn law_actions_are_of_one_kind(action: Action)
    ensures
        scrolls(action) <==> action == Action::HorizontalScrollLeft || action == Action::HorizontalScrollRight,
        is_custom(action) <==> action != Action::HorizontalScrollLeft && action != Action::HorizontalScrollRight
            && action != Action::NoAction,
{
}

/// A wheel that was not turned owes nothing.
pub proof fn law_unturned_owes_nothing()
    ensures
        unturned().up == unturned().down,
        unturned().up.scroll == 0 && unturned().up.action == 0,
        unturned().up.last_event is None && unturned().up.last_fired is None,
{
}

/// A wheel that was not turned has room for any event, and every sensitivity
/// that can be set, and any other from -2,147,450,851 on, can be used.
pub proof fn law_room_for_every_event(sensitivity: i32, wheels: WheelAccumulators)
    ensures
        unturned().has_room(),
        usable(sensitivity) <==> sensitivity >= -2_147_450_851,
        wheels.has_room() <==> {
            &&& 0 <= wheels.up.action <= 0x7fff_7fff && 0 <= wheels.down.action <= 0x7fff_7fff
            &&& wheels.up.can_scroll() && wheels.down.can_scroll()
        },
{
}

} // verus!
