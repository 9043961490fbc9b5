//! Turning reports of taken-over controls into inputs: presses, taps and swipes.

use vstd::prelude::*;
use crate::buttons::{ButtonId, GestureDirection};
use crate::capture_plan::{GESTURE_BUTTON_CID, HAPTIC_PANEL_CID};
use crate::sessions::CapturedInput;
use crate::value::list_contains;

verus! {

/// When a movement counts as a swipe: the control has been held for at least so
/// many nanoseconds, and the movement goes at least so far.
#[derive(Clone, Copy, Debug, PartialEq, Eq, Structural)]
pub struct SwipeRules {
    pub hold_gate: u64,
    pub travel: i64,
}

/// A report of the taken-over controls.
#[derive(Clone, Copy, Debug, PartialEq, Eq)]
pub enum RawControlEvent {
    /// The control ids that are down, filled up with zeroes.
    DivertedButtons([u16; 4]),
    /// A movement while a gesture control is held.
    RawXy { dx: i16, dy: i16 },
}

/// A gesture control that is held.
#[derive(Clone, Copy, Debug, PartialEq, Eq, Structural)]
pub struct Hold {
    /// Since when, in nanoseconds.
    pub since: u64,
    pub dx: i64,
    pub dy: i64,
    /// The next movement is no movement but the place of contact.
    pub skip_next: bool,
    /// A swipe was recognised.
    pub swiped: bool,
}

/// What is down.
#[derive(Debug, PartialEq, Eq)]
pub struct CaptureAccum {
    pub hold: Option<Hold>,
    /// The control ids of the last report.
    pub down: [u16; 4],
}

/// A control as a device lists it.
#[derive(Clone, Copy, Debug, PartialEq, Eq, Structural)]
pub struct CtrlIdInfo {
    pub cid: u16,
    /// The control can report movement while it is held.
    pub raw_xy: bool,
}

/// A control that can be the source of gestures.
pub open spec fn is_gesture_source(control: CtrlIdInfo) -> bool {
    (control.cid == GESTURE_BUTTON_CID || control.cid == HAPTIC_PANEL_CID) && control.raw_xy
}

/// The control ids of the gesture sources among the first `n` controls.
pub open spec fn sources_of(controls: Seq<CtrlIdInfo>, n: int) -> Seq<u16>
    decreases n,
{
    if n <= 0 {
        Seq::empty()
    } else if is_gesture_source(controls[n - 1]) {
        sources_of(controls, n - 1).push(controls[n - 1].cid)
    } else {
        sources_of(controls, n - 1)
    }
}

/// The control ids of the gesture sources that a device has.
pub fn gesture_source_cids(controls: &Vec<CtrlIdInfo>) -> (r: Vec<u16>)
    ensures
        r@ == sources_of(controls@, controls@.len() as int),
{
    let mut out: Vec<u16> = Vec::new();
    let mut i: usize = 0;
    while i < controls.len()
        invariant
            i <= controls@.len(),
            out@ == sources_of(controls@, i as int),
        decreases controls@.len() - i,
    {
        let control: CtrlIdInfo = controls[i];
        if (control.cid == GESTURE_BUTTON_CID || control.cid == HAPTIC_PANEL_CID) && control.raw_xy {
            out.push(control.cid);
        }
        i += 1;
    }
    out
}

/// `frame[i]` is the first control of the report that is a gesture source.
pub open spec fn is_first_source(frame: Seq<u16>, sources: Seq<u16>, i: int) -> bool {
    &&& 0 <= i < frame.len()
    &&& sources.contains(frame[i])
    &&& forall|j: int| 0 <= j < i ==> !sources.contains(#[trigger] frame[j])
}

/// A gesture source is down.
pub open spec fn holds_source(frame: Seq<u16>, sources: Seq<u16>) -> bool {
    exists|i: int| 0 <= i < frame.len() && sources.contains(#[trigger] frame[i])
}

/// What becomes of the held control by a report of `frame` at `now`. The first
/// movement that the panel reports is the place of contact.
pub open spec fn hold_after(hold: Option<Hold>, frame: Seq<u16>, sources: Seq<u16>, now: u64, out: Option<Hold>) -> bool {
    if holds_source(frame, sources) {
        match hold {
            Some(held) => out == Some(held),
            None => exists|i: int| #[trigger] is_first_source(frame, sources, i) && out == Some(
                Hold { since: now, dx: 0, dy: 0, skip_next: frame[i] == HAPTIC_PANEL_CID, swiped: false },
            ),
        }
    } else {
        out is None
    }
}

/// Letting go of a gesture control is a click, unless it was a swipe.
pub open spec fn release_inputs(hold: Option<Hold>, frame: Seq<u16>, sources: Seq<u16>) -> Seq<CapturedInput> {
    match hold {
        Some(held) => if !holds_source(frame, sources) && !held.swiped {
            seq![CapturedInput::Gesture(GestureDirection::Click)]
        } else {
            Seq::empty()
        },
        None => Seq::empty(),
    }
}

/// `buttons[i]` is the first entry of `cid`.
pub open spec fn is_entry_of(buttons: Seq<(u16, ButtonId)>, cid: u16, i: int) -> bool {
    &&& 0 <= i < buttons.len()
    &&& buttons[i].0 == cid
    &&& forall|j: int| 0 <= j < i ==> (#[trigger] buttons[j]).0 != cid
}

/// The button that `cid` is pressed as: the DPI toggle, or what it was taken
/// over as.
pub open spec fn pressed_as(cid: u16, dpi: Seq<u16>, buttons: Seq<(u16, ButtonId)>, r: Option<ButtonId>) -> bool {
    if dpi.contains(cid) {
        r == Some(ButtonId::DpiToggle)
    } else {
        match r {
            Some(button) => exists|i: int| #[trigger] is_entry_of(buttons, cid, i) && buttons[i].1 == button,
            None => forall|i: int| !#[trigger] is_entry_of(buttons, cid, i),
        }
    }
}

pub open spec fn button_of(cid: u16, dpi: Seq<u16>, buttons: Seq<(u16, ButtonId)>) -> Option<ButtonId> {
    choose|r: Option<ButtonId>| pressed_as(cid, dpi, buttons, r)
}

/// The control at place `i` of the report has just gone down.
pub open spec fn goes_down(frame: Seq<u16>, down: Seq<u16>, i: int) -> bool {
    !down.contains(frame[i]) && !frame.take(i).contains(frame[i])
}

/// The presses of the first `n` controls of the report: each control that has
/// just gone down is pressed once, however long it is held.
pub open spec fn press_inputs(
    frame: Seq<u16>,
    down: Seq<u16>,
    dpi: Seq<u16>,
    buttons: Seq<(u16, ButtonId)>,
    n: int,
) -> Seq<CapturedInput>
    decreases n,
{
    if n <= 0 {
        Seq::empty()
    } else {
        let before = press_inputs(frame, down, dpi, buttons, n - 1);
        match button_of(frame[n - 1], dpi, buttons) {
            Some(button) => if goes_down(frame, down, n - 1) {
                before.push(CapturedInput::ButtonPressed(button))
            } else {
                before
            },
            None => before,
        }
    }
}

/// The longest movement that is told from a longer one.
pub const TRAVEL_LIMIT: i64 = 0x3fff_ffff_ffff_ffff;

/// A movement, as far as it is told from a longer one.
pub open spec fn within(x: int) -> int {
    if x > TRAVEL_LIMIT {
        TRAVEL_LIMIT as int
    } else if x < -TRAVEL_LIMIT {
        -TRAVEL_LIMIT as int
    } else {
        x
    }
}

fn add_within(x: i64, d: i16) -> (r: i64)
    ensures
        r == within(x + d),
        -TRAVEL_LIMIT <= r <= TRAVEL_LIMIT,
{
    let sum: i128 = x as i128 + d as i128;
    if sum > TRAVEL_LIMIT as i128 {
        TRAVEL_LIMIT
    } else if sum < -(TRAVEL_LIMIT as i128) {
        -TRAVEL_LIMIT
    } else {
        sum as i64
    }
}

/// The size of a number.
pub open spec fn size(x: int) -> int {
    if x >= 0 {
        x
    } else {
        -x
    }
}

/// The direction of a movement: that of its longer side.
pub open spec fn direction_of(dx: int, dy: int) -> GestureDirection {
    if size(dx) >= size(dy) {
        if dx > 0 {
            GestureDirection::Right
        } else {
            GestureDirection::Left
        }
    } else {
        if dy > 0 {
            GestureDirection::Down
        } else {
            GestureDirection::Up
        }
    }
}

/// A held control that has gone so far is a swipe.
pub open spec fn is_swipe(held: Hold, dx: int, dy: int, rules: SwipeRules, now: u64) -> bool {
    now - held.since >= rules.hold_gate && (size(dx) >= rules.travel || size(dy) >= rules.travel)
}

/// What becomes of the held control by a movement.
pub open spec fn moved(hold: Option<Hold>, dx: i16, dy: i16, rules: SwipeRules, now: u64) -> Option<Hold> {
    match hold {
        Some(held) => if held.swiped {
            hold
        } else if held.skip_next {
            Some(Hold { skip_next: false, ..held })
        } else {
            Some(
                Hold {
                    dx: within(held.dx + dx) as i64,
                    dy: within(held.dy + dy) as i64,
                    swiped: is_swipe(held, within(held.dx + dx), within(held.dy + dy), rules, now),
                    ..held
                },
            )
        },
        None => None,
    }
}

/// What a movement leads to: the swipe, once it is recognised.
pub open spec fn move_inputs(hold: Option<Hold>, dx: i16, dy: i16, rules: SwipeRules, now: u64) -> Seq<CapturedInput> {
    match hold {
        Some(held) => if !held.swiped && !held.skip_next && is_swipe(
            held,
            within(held.dx + dx),
            within(held.dy + dy),
            rules,
            now,
        ) {
            seq![CapturedInput::Gesture(direction_of(within(held.dx + dx), within(held.dy + dy)))]
        } else {
            Seq::empty()
        },
        None => Seq::empty(),
    }
}

fn abs(x: i64) -> (r: i64)
    requires
        x > i64::MIN,
    ensures
        r == size(x as int),
{
    if x >= 0 {
        x
    } else {
        -x
    }
}

fn direction(dx: i64, dy: i64) -> (r: GestureDirection)
    requires
        dx > i64::MIN,
        dy > i64::MIN,
    ensures
        r == direction_of(dx as int, dy as int),
{
    if abs(dx) >= abs(dy) {
        if dx > 0 {
            GestureDirection::Right
        } else {
            GestureDirection::Left
        }
    } else if dy > 0 {
        GestureDirection::Down
    } else {
        GestureDirection::Up
    }
}

fn find_button(cid: u16, dpi: &Vec<u16>, buttons: &Vec<(u16, ButtonId)>) -> (r: Option<ButtonId>)
    ensures
        r == button_of(cid, dpi@, buttons@),
{
    assert(dpi.deep_view() =~= dpi@);
    if list_contains(dpi, &cid) {
        proof {
            assert(pressed_as(cid, dpi@, buttons@, Some(ButtonId::DpiToggle)));
        }
        return Some(ButtonId::DpiToggle);
    }
    let mut i: usize = 0;
    while i < buttons.len()
        invariant
            i <= buttons@.len(),
            !dpi@.contains(cid),
            forall|j: int| 0 <= j < i ==> (#[trigger] buttons@[j]).0 != cid,
        decreases buttons@.len() - i,
    {
        if buttons[i].0 == cid {
            proof {
                assert(is_entry_of(buttons@, cid, i as int));
                lemma_button_of(cid, dpi@, buttons@, i as int);
            }
            return Some(buttons[i].1);
        }
        i += 1;
    }
    proof {
        assert(pressed_as(cid, dpi@, buttons@, None));
        let r = button_of(cid, dpi@, buttons@);
        assert(pressed_as(cid, dpi@, buttons@, r));
    }
    None
}

proof fn lemma_button_of(cid: u16, dpi: Seq<u16>, buttons: Seq<(u16, ButtonId)>, i: int)
    requires
        !dpi.contains(cid),
        is_entry_of(buttons, cid, i),
    ensures
        button_of(cid, dpi, buttons) == Some(buttons[i].1),
{
    assert(pressed_as(cid, dpi, buttons, Some(buttons[i].1)));
    let r = button_of(cid, dpi, buttons);
    assert(pressed_as(cid, dpi, buttons, r));
    if let Some(button) = r {
        let k = choose|k: int| #[trigger] is_entry_of(buttons, cid, k) && buttons[k].1 == button;
        if k < i {
            assert(buttons[k].0 != cid);
        } else if i < k {
            assert(buttons[i].0 != cid);
        }
    }
}

fn in_frame(frame: &[u16; 4], cid: u16, n: usize) -> (r: bool)
    requires
        n <= 4,
    ensures
        r == frame@.take(n as int).contains(cid),
{
    let ghost part = frame@.take(n as int);
    let mut i: usize = 0;
    while i < n
        invariant
            i <= n <= 4,
            part == frame@.take(n as int),
            forall|j: int| 0 <= j < i ==> part[j] != cid,
        decreases n - i,
    {
        if frame[i] == cid {
            assert(part[i as int] == cid);
            return true;
        }
        i += 1;
    }
    false
}

impl CaptureAccum {
    /// Nothing is down.
    pub fn new() -> (r: Self)
        ensures
            r.hold is None,
            forall|i: int| 0 <= i < 4 ==> #[trigger] r.down@[i] == 0,
    {
        CaptureAccum { hold: None, down: [0, 0, 0, 0] }
    }

    /// What a report leads to. `sources` are the gesture sources, `dpi` the
    /// controls of the DPI toggle, `buttons` what else was taken over.
    pub fn handle_reprog(
        &mut self,
        event: RawControlEvent,
        sources: &Vec<u16>,
        dpi: &Vec<u16>,
        buttons: &Vec<(u16, ButtonId)>,
        rules: SwipeRules,
        now: u64,
    ) -> (r: Vec<CapturedInput>)
        ensures
            match event {
                RawControlEvent::DivertedButtons(frame) => {
                    &&& hold_after(old(self).hold, frame@, sources@, now, final(self).hold)
                    &&& final(self).down == frame
                    &&& r@ == release_inputs(old(self).hold, frame@, sources@) + press_inputs(
                        frame@,
                        old(self).down@,
                        dpi@,
                        buttons@,
                        4,
                    )
                },
                RawControlEvent::RawXy { dx, dy } => {
                    &&& final(self).hold == moved(old(self).hold, dx, dy, rules, now)
                    &&& final(self).down == old(self).down
                    &&& r@ == move_inputs(old(self).hold, dx, dy, rules, now)
                },
            },
    {
        let mut out: Vec<CapturedInput> = Vec::new();
        match event {
            RawControlEvent::DivertedButtons(frame) => {
                let source = first_source(&frame, sources);
                match self.hold {
                    Some(held) => {
                        if source.is_none() {
                            if !held.swiped {
                                out.push(CapturedInput::Gesture(GestureDirection::Click));
                            }
                            self.hold = None;
                        }
                    },
                    None => {
                        if let Some(cid) = source {
                            self.hold = Some(
                                Hold { since: now, dx: 0, dy: 0, skip_next: cid == HAPTIC_PANEL_CID, swiped: false },
                            );
                        }
                    },
                }
                let ghost released = out@;
                assert(released =~= release_inputs(old(self).hold, frame@, sources@));
                let mut i: usize = 0;
                assert(out@ =~= released + press_inputs(frame@, self.down@, dpi@, buttons@, 0));
                while i < 4
                    invariant
                        i <= 4,
                        self.down == old(self).down,
                        hold_after(old(self).hold, frame@, sources@, now, self.hold),
                        out@ == released + press_inputs(frame@, self.down@, dpi@, buttons@, i as int),
                    decreases 4 - i,
                {
                    let cid: u16 = frame[i];
                    let ghost so_far = out@;
                    let button = find_button(cid, dpi, buttons);
                    assert(self.down@.take(4) =~= self.down@);
                    if let Some(button) = button {
                        if !in_frame(&self.down, cid, 4) && !in_frame(&frame, cid, i) {
                            out.push(CapturedInput::ButtonPressed(button));
                        }
                    }
                    assert(out@ =~= released + press_inputs(frame@, self.down@, dpi@, buttons@, i + 1));
                    i += 1;
                }
                self.down = frame;
            },
            RawControlEvent::RawXy { dx, dy } => {
                if let Some(held) = self.hold {
                    if held.swiped {
                    } else if held.skip_next {
                        self.hold = Some(
                            Hold {
                                since: held.since,
                                dx: held.dx,
                                dy: held.dy,
                                skip_next: false,
                                swiped: false,
                            },
                        );
                    } else {
                        let x: i64 = add_within(held.dx, dx);
                        let y: i64 = add_within(held.dy, dy);
                        let long = now >= held.since && now - held.since >= rules.hold_gate;
                        let swiped = long && (abs(x) >= rules.travel || abs(y) >= rules.travel);
                        if swiped {
                            out.push(CapturedInput::Gesture(direction(x, y)));
                        }
                        self.hold = Some(
                            Hold { since: held.since, dx: x, dy: y, skip_next: false, swiped },
                        );
                    }
                }
                assert(out@ =~= move_inputs(old(self).hold, dx, dy, rules, now));
            },
        }
        out
    }
}

fn first_source(frame: &[u16; 4], sources: &Vec<u16>) -> (r: Option<u16>)
    ensures
        match r {
            Some(cid) => holds_source(frame@, sources@) && exists|i: int| #[trigger]
                is_first_source(frame@, sources@, i) && frame@[i] == cid,
            None => !holds_source(frame@, sources@),
        },
{
    let mut i: usize = 0;
    while i < 4
        invariant
            i <= 4,
            forall|j: int| 0 <= j < i ==> !sources@.contains(#[trigger] frame@[j]),
        decreases 4 - i,
    {
        assert(sources.deep_view() =~= sources@);
        if list_contains(sources, &frame[i]) {
            assert(is_first_source(frame@, sources@, i as int));
            return Some(frame[i]);
        }
        i += 1;
    }
    None
}

/// A tap is a click: holding a gesture control and letting it go without a
/// swipe leads to a click.
pub proof fn law_tap_is_a_click(hold: Option<Hold>, frame: Seq<u16>, sources: Seq<u16>)
    requires
        hold matches Some(held) && !held.swiped,
        !holds_source(frame, sources),
    ensures
        release_inputs(hold, frame, sources) == seq![CapturedInput::Gesture(GestureDirection::Click)],
{
}

/// After a swipe nothing more comes of the control until it is let go, and then
/// there is no click.
pub proof fn law_swipe_is_no_click(
    hold: Option<Hold>,
    dx: i16,
    dy: i16,
    rules: SwipeRules,
    now: u64,
    frame: Seq<u16>,
    sources: Seq<u16>,
    more: (i16, i16, u64),
)
    requires
        move_inputs(hold, dx, dy, rules, now).len() > 0,
    ensures
        release_inputs(moved(hold, dx, dy, rules, now), frame, sources).len() == 0,
        move_inputs(moved(hold, dx, dy, rules, now), more.0, more.1, rules, more.2).len() == 0,
{
}

/// The first movement that the panel reports never counts.
pub proof fn law_contact_is_no_movement(held: Hold, dx: i16, dy: i16, rules: SwipeRules, now: u64)
    requires
        held.skip_next,
    ensures
        move_inputs(Some(held), dx, dy, rules, now).len() == 0,
        moved(Some(held), dx, dy, rules, now) == Some(held) || moved(Some(held), dx, dy, rules, now) == Some(
            Hold { skip_next: false, ..held },
        ),
{
}

/// A control that stays down is pressed no second time.
pub proof fn law_held_button_presses_once(
    frame: Seq<u16>,
    dpi: Seq<u16>,
    buttons: Seq<(u16, ButtonId)>,
    n: int,
)
    requires
        0 <= n <= frame.len(),
    ensures
        press_inputs(frame, frame, dpi, buttons, n).len() == 0,
    decreases n,
{
    if n > 0 {
        law_held_button_presses_once(frame, dpi, buttons, n - 1);
        assert(frame.contains(frame[n - 1]));
    }
}

/// The sources of gestures are the gesture button and the panel, where they can
/// report movement, and no other control.
pub proof fn law_gesture_button_and_panel_are_sources(controls: Seq<CtrlIdInfo>, n: int, cid: u16)
    requires
        0 <= n <= controls.len(),
    ensures
        sources_of(controls, n).contains(cid) <==> (cid == GESTURE_BUTTON_CID || cid == HAPTIC_PANEL_CID)
            && exists|i: int| 0 <= i < n && (#[trigger] controls[i]).cid == cid && controls[i].raw_xy,
    decreases n,
{
    if n > 0 {
        law_gesture_button_and_panel_are_sources(controls, n - 1, cid);
        let (before, last) = (sources_of(controls, n - 1), controls[n - 1]);
        crate::seqs::lemma_push_contains(before, last.cid);
        if sources_of(controls, n).contains(cid) && !before.contains(cid) {
            assert(last == controls[n - 1]);
        }
    }
}

/// A gesture control is held from the first report on that it is in to the first
/// that no such control is in. Meanwhile the hold stays as it is. It starts at
/// that moment, without a movement, and skips the next one exactly if it is the
/// panel that went down.
pub proof fn law_hold_lasts_while_the_control_is_down(
    hold: Option<Hold>,
    frame: Seq<u16>,
    sources: Seq<u16>,
    now: u64,
    out: Option<Hold>,
    i: int,
)
    requires
        hold_after(hold, frame, sources, now, out),
    ensures
        0 <= i < frame.len() && sources.contains(frame[i]) ==> out is Some,
        (forall|j: int| 0 <= j < frame.len() ==> !sources.contains(#[trigger] frame[j])) ==> out is None,
        hold is Some && out is Some ==> out == hold,
        hold is None && out is Some ==> ({
            let held = out->0;
            &&& held.since == now && held.dx == 0 && held.dy == 0 && !held.swiped
            &&& 0 <= i < frame.len() && sources.contains(frame[i]) && (forall|j: int|
                0 <= j < i ==> !sources.contains(#[trigger] frame[j])) ==> (held.skip_next <==> frame[i]
                == HAPTIC_PANEL_CID)
        }),
{
    if hold is None && out is Some {
        let k = choose|k: int| #[trigger] is_first_source(frame, sources, k) && out == Some(
            Hold { since: now, dx: 0, dy: 0, skip_next: frame[k] == HAPTIC_PANEL_CID, swiped: false },
        );
        if 0 <= i < k {
            assert(!sources.contains(frame[i]));
        }
        if 0 <= k < i {
            assert(sources.contains(frame[k]));
        }
    }
}

/// Letting go leads to one click or to nothing: to a click exactly if a control
/// was held, was not swiped, and none is down any more.
pub proof fn law_release_clicks_at_most_once(hold: Option<Hold>, frame: Seq<u16>, sources: Seq<u16>)
    ensures
        ({
            let inputs = release_inputs(hold, frame, sources);
            let clicks = hold is Some && !hold->0.swiped && forall|j: int|
                0 <= j < frame.len() ==> !sources.contains(#[trigger] frame[j]);
            &&& clicks ==> inputs == seq![CapturedInput::Gesture(GestureDirection::Click)]
            &&& !clicks ==> inputs.len() == 0
        }),
{
}

/// Of the controls of a report, each that has just gone down is pressed once, in
/// order: one of the DPI toggle as that, another as what it was taken over as
/// first. One that was down before, stands earlier in the report or was not
/// taken over is not pressed.
pub proof fn law_control_is_pressed_as_it_goes_down(
    frame: Seq<u16>,
    down: Seq<u16>,
    dpi: Seq<u16>,
    buttons: Seq<(u16, ButtonId)>,
    i: int,
    k: int,
)
    requires
        0 <= i < frame.len(),
    ensures
        ({
            let cid = frame[i];
            let old_one = down.contains(cid) || exists|j: int| 0 <= j < i && #[trigger] frame[j] == cid;
            let (before, now) = (
                press_inputs(frame, down, dpi, buttons, i),
                press_inputs(frame, down, dpi, buttons, i + 1),
            );
            let taken_first = 0 <= k < buttons.len() && buttons[k].0 == cid && forall|j: int|
                0 <= j < k ==> (#[trigger] buttons[j]).0 != cid;
            let not_taken = forall|j: int| 0 <= j < buttons.len() ==> (#[trigger] buttons[j]).0 != cid;
            &&& old_one ==> now == before
            &&& !old_one && dpi.contains(cid) ==> now == before.push(CapturedInput::ButtonPressed(ButtonId::DpiToggle))
            &&& !old_one && !dpi.contains(cid) && taken_first ==> now == before.push(
                CapturedInput::ButtonPressed(buttons[k].1),
            )
            &&& !dpi.contains(cid) && not_taken ==> now == before
            &&& press_inputs(frame, down, dpi, buttons, 0).len() == 0
        }),
{
    let cid = frame[i];
    let part = frame.take(i);
    if part.contains(cid) {
        let j = choose|j: int| 0 <= j < part.len() && part[j] == cid;
        assert(frame[j] == cid);
    }
    if exists|j: int| 0 <= j < i && #[trigger] frame[j] == cid {
        let j = choose|j: int| 0 <= j < i && #[trigger] frame[j] == cid;
        assert(part[j] == cid);
    }
    let r = button_of(cid, dpi, buttons);
    if dpi.contains(cid) {
        assert(pressed_as(cid, dpi, buttons, Some(ButtonId::DpiToggle)));
        assert(pressed_as(cid, dpi, buttons, r));
    } else {
        if is_entry_of(buttons, cid, k) {
            lemma_button_of(cid, dpi, buttons, k);
        }
        if forall|j: int| 0 <= j < buttons.len() ==> (#[trigger] buttons[j]).0 != cid {
            assert(pressed_as(cid, dpi, buttons, None));
            assert(pressed_as(cid, dpi, buttons, r));
        }
    }
}

/// A movement of a held control adds up, as far as it is told. It becomes a swipe
/// exactly if the control has been held for the time of the rules and one side of
/// the movement is as long as they say. A swipe is told once.
pub proof fn law_movement_adds_up_to_a_swipe(held: Hold, dx: i16, dy: i16, rules: SwipeRules, now: u64)
    ensures
        ({
            let (x, y) = (held.dx + dx, held.dy + dy);
            let (inputs, out) = (move_inputs(Some(held), dx, dy, rules, now), moved(Some(held), dx, dy, rules, now));
            let counts = !held.swiped && !held.skip_next;
            let told = -0x3fff_ffff_ffff_ffff <= x <= 0x3fff_ffff_ffff_ffff && -0x3fff_ffff_ffff_ffff <= y
                <= 0x3fff_ffff_ffff_ffff;
            let far = x >= rules.travel || -x >= rules.travel || y >= rules.travel || -y >= rules.travel;
            let swipe = counts && now >= held.since + rules.hold_gate && far;
            &&& out is Some
            &&& out->0.since == held.since
            &&& !counts ==> inputs.len() == 0 && out->0.dx == held.dx && out->0.dy == held.dy && out->0.swiped
                == held.swiped
            &&& held.swiped ==> out == Some(held)
            &&& !held.swiped ==> !out->0.skip_next
            &&& counts && told ==> out->0.dx == x && out->0.dy == y && (out->0.swiped <==> swipe)
            &&& told && swipe ==> inputs.len() == 1 && inputs[0] is Gesture
            &&& told && !swipe ==> inputs.len() == 0
        }),
        moved(None, dx, dy, rules, now) is None,
        move_inputs(None, dx, dy, rules, now).len() == 0,
{
}

/// A swipe goes the way of the longer side of the movement, and sideways if both
/// are as long.
pub proof fn law_swipe_goes_the_longer_way(held: Hold, dx: i16, dy: i16, rules: SwipeRules, now: u64)
    requires
        move_inputs(Some(held), dx, dy, rules, now).len() > 0,
        -0x3fff_ffff_ffff_ffff <= held.dx + dx <= 0x3fff_ffff_ffff_ffff,
        -0x3fff_ffff_ffff_ffff <= held.dy + dy <= 0x3fff_ffff_ffff_ffff,
    ensures
        ({
            let (x, y) = (held.dx + dx, held.dy + dy);
            let input = move_inputs(Some(held), dx, dy, rules, now)[0];
            &&& x > 0 && x >= y && x >= -y ==> input == CapturedInput::Gesture(GestureDirection::Right)
            &&& x <= 0 && -x >= y && -x >= -y ==> input == CapturedInput::Gesture(GestureDirection::Left)
            &&& y > 0 && y > x && y > -x ==> input == CapturedInput::Gesture(GestureDirection::Down)
            &&& y < 0 && -y > x && -y > -x ==> input == CapturedInput::Gesture(GestureDirection::Up)
        }),
{
}

/// What is not told from a longer movement has the same sign as it.
pub proof fn law_long_movement_keeps_its_sign(x: int)
    ensures
        x > 0x3fff_ffff_ffff_ffff ==> within(x) == 0x3fff_ffff_ffff_ffff,
        x < -0x3fff_ffff_ffff_ffff ==> within(x) == -0x3fff_ffff_ffff_ffff,
        -0x3fff_ffff_ffff_ffff <= x <= 0x3fff_ffff_ffff_ffff ==> within(x) == x,
{
}

} // verus!
