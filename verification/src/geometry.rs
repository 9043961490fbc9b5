//! The buttons on the picture of a device, and the labels beside it.

use vstd::prelude::*;
use crate::buttons::ButtonId;
use crate::text::text_eq;

verus! {

/// How far the two directions of the thumb wheel stand above and below the
/// marker of the wheel.
pub const THUMBWHEEL_ROTATION_OFFSET: i32 = 18;

/// A place on the picture that can be clicked. The coordinates of the picture
/// are of any kind; `shift` is added to `y`, in whole pixels.
#[derive(Clone, Copy, Debug, PartialEq)]
pub struct Hotspot<C> {
    pub id: ButtonId,
    pub x: C,
    pub y: C,
    pub w: C,
    pub h: C,
    pub shift: i32,
}

/// The side of the picture on which a label stands.
#[derive(Clone, Copy, Debug, PartialEq, Eq, Structural)]
pub enum Side {
    Left,
    Right,
}

/// A label beside the picture.
#[derive(Clone, Copy, Debug, PartialEq, Eq, Structural)]
pub struct Label {
    pub id: ButtonId,
    pub side: Side,
    pub y: i32,
}

/// A marker on the picture of a device, named by the slot it stands for.
#[derive(Debug)]
pub struct Assignment<C> {
    pub slot_name: String,
    pub x: C,
    pub y: C,
}

/// The picture of a device with its markers.
#[derive(Debug)]
pub struct ResolvedAsset<C> {
    pub assignments: Vec<Assignment<C>>,
}

/// The button that a slot stands for.
pub open spec fn slot_button(name: Seq<char>) -> Option<ButtonId> {
    if name == "SLOT_NAME_LEFT_BUTTON"@ {
        Some(ButtonId::LeftClick)
    } else if name == "SLOT_NAME_RIGHT_BUTTON"@ {
        Some(ButtonId::RightClick)
    } else if name == "SLOT_NAME_MIDDLE_BUTTON"@ {
        Some(ButtonId::MiddleClick)
    } else if name == "SLOT_NAME_BACK_BUTTON"@ {
        Some(ButtonId::Back)
    } else if name == "SLOT_NAME_FORWARD_BUTTON"@ {
        Some(ButtonId::Forward)
    } else if name == "SLOT_NAME_MODESHIFT_BUTTON"@ {
        Some(ButtonId::DpiToggle)
    } else if name == "SLOT_NAME_THUMBWHEEL"@ {
        Some(ButtonId::Thumbwheel)
    } else if name == "SLOT_NAME_GESTURE_BUTTON"@ {
        Some(ButtonId::GestureButton)
    } else if name == "ASSIGNMENT_NAME_SHOW_RADIAL_MENU"@ {
        Some(ButtonId::HapticPanel)
    } else {
        None
    }
}

/// The button that a slot stands for; none for a name that is not known.
pub fn map_slot_name(name: &str) -> (r: Option<ButtonId>)
    ensures
        r == slot_button(name@),
{
    if text_eq(name, "SLOT_NAME_LEFT_BUTTON") {
        Some(ButtonId::LeftClick)
    } else if text_eq(name, "SLOT_NAME_RIGHT_BUTTON") {
        Some(ButtonId::RightClick)
    } else if text_eq(name, "SLOT_NAME_MIDDLE_BUTTON") {
        Some(ButtonId::MiddleClick)
    } else if text_eq(name, "SLOT_NAME_BACK_BUTTON") {
        Some(ButtonId::Back)
    } else if text_eq(name, "SLOT_NAME_FORWARD_BUTTON") {
        Some(ButtonId::Forward)
    } else if text_eq(name, "SLOT_NAME_MODESHIFT_BUTTON") {
        Some(ButtonId::DpiToggle)
    } else if text_eq(name, "SLOT_NAME_THUMBWHEEL") {
        Some(ButtonId::Thumbwheel)
    } else if text_eq(name, "SLOT_NAME_GESTURE_BUTTON") {
        Some(ButtonId::GestureButton)
    } else if text_eq(name, "ASSIGNMENT_NAME_SHOW_RADIAL_MENU") {
        Some(ButtonId::HapticPanel)
    } else {
        None
    }
}

/// Whether the picture has markers of buttons, so that room is left for labels.
pub fn asset_has_button_labels<C>(asset: &ResolvedAsset<C>) -> (r: bool)
    ensures
        r == exists|i: int|
            0 <= i < asset.assignments@.len() && slot_button((#[trigger] asset.assignments@[i]).slot_name@) is Some,
{
    let mut i: usize = 0;
    while i < asset.assignments.len()
        invariant
            i <= asset.assignments@.len(),
            forall|j: int|
                0 <= j < i ==> slot_button((#[trigger] asset.assignments@[j]).slot_name@) is None,
        decreases asset.assignments@.len() - i,
    {
        if map_slot_name(asset.assignments[i].slot_name.as_str()).is_some() {
            assert(slot_button(asset.assignments@[i as int].slot_name@) is Some);
            return true;
        }
        i += 1;
    }
    false
}

/// The primary clicks. They cannot be bound to anything else, so they are not
/// shown.
pub open spec fn is_primary(id: ButtonId) -> bool {
    id == ButtonId::LeftClick || id == ButtonId::RightClick
}

/// The hotspots of the first `n` markers, of the size `size`: one for each that
/// stands for a button other than the primary clicks.
pub open spec fn marker_hotspots<C>(assignments: Seq<Assignment<C>>, size: C, n: int) -> Seq<Hotspot<C>>
    decreases n,
{
    if n <= 0 {
        Seq::empty()
    } else {
        let before = marker_hotspots(assignments, size, n - 1);
        let marker = assignments[n - 1];
        match slot_button(marker.slot_name@) {
            Some(id) => if is_primary(id) {
                before
            } else {
                before.push(Hotspot { id, x: marker.x, y: marker.y, w: size, h: size, shift: 0 })
            },
            None => before,
        }
    }
}

/// The hotspots of a picture whose markers stand at the upper left corner of
/// each hotspot. The primary clicks have none.
pub fn asset_hotspots<C: Copy>(asset: &ResolvedAsset<C>, size: C) -> (r: Vec<Hotspot<C>>)
    ensures
        r@ == rotated(marker_hotspots(asset.assignments@, size, asset.assignments@.len() as int)),
{
    let mut out: Vec<Hotspot<C>> = Vec::new();
    let mut i: usize = 0;
    while i < asset.assignments.len()
        invariant
            i <= asset.assignments@.len(),
            out@ == marker_hotspots(asset.assignments@, size, i as int),
            forall|k: int| 0 <= k < out@.len() ==> (#[trigger] out@[k]).shift == 0,
        decreases asset.assignments@.len() - i,
    {
        let marker: &Assignment<C> = &asset.assignments[i];
        if let Some(id) = map_slot_name(marker.slot_name.as_str()) {
            if id != ButtonId::LeftClick && id != ButtonId::RightClick {
                out.push(Hotspot { id, x: marker.x, y: marker.y, w: size, h: size, shift: 0 });
            }
        }
        i += 1;
    }
    with_thumbwheel_rotation(out)
}

/// `hotspots[i]` is the first hotspot of the thumb wheel.
pub open spec fn is_wheel<C>(hotspots: Seq<Hotspot<C>>, i: int) -> bool {
    &&& 0 <= i < hotspots.len()
    &&& hotspots[i].id == ButtonId::Thumbwheel
    &&& forall|j: int| 0 <= j < i ==> (#[trigger] hotspots[j]).id != ButtonId::Thumbwheel
}

/// There is a hotspot of the thumb wheel.
pub open spec fn has_wheel<C>(hotspots: Seq<Hotspot<C>>) -> bool {
    exists|i: int| 0 <= i < hotspots.len() && (#[trigger] hotspots[i]).id == ButtonId::Thumbwheel
}

pub open spec fn no_wheel<C>() -> spec_fn(Hotspot<C>) -> bool {
    |h: Hotspot<C>| h.id != ButtonId::Thumbwheel
}

/// The first hotspot of the thumb wheel, where there is one.
pub open spec fn wheel_of<C>(hotspots: Seq<Hotspot<C>>) -> Hotspot<C> {
    hotspots[choose|i: int| is_wheel(hotspots, i)]
}

/// The hotspots with that of the thumb wheel replaced by one for each of its
/// directions: up above the marker, down below it.
pub open spec fn rotated<C>(hotspots: Seq<Hotspot<C>>) -> Seq<Hotspot<C>> {
    if has_wheel(hotspots) {
        let wheel = wheel_of(hotspots);
        hotspots.filter(no_wheel()).push(
            Hotspot {
                id: ButtonId::ThumbwheelScrollUp,
                shift: (wheel.shift - THUMBWHEEL_ROTATION_OFFSET) as i32,
                ..wheel
            },
        ).push(
            Hotspot {
                id: ButtonId::ThumbwheelScrollDown,
                shift: (wheel.shift + THUMBWHEEL_ROTATION_OFFSET) as i32,
                ..wheel
            },
        )
    } else {
        hotspots
    }
}

proof fn lemma_wheel_of<C>(hotspots: Seq<Hotspot<C>>, i: int)
    requires
        is_wheel(hotspots, i),
    ensures
        wheel_of(hotspots) == hotspots[i],
        has_wheel(hotspots),
{
    let k = choose|k: int| is_wheel(hotspots, k);
    assert(is_wheel(hotspots, k));
    if k < i {
        assert(hotspots[k].id != ButtonId::Thumbwheel);
    } else if i < k {
        assert(hotspots[i].id != ButtonId::Thumbwheel);
    }
}

/// The hotspots with that of the thumb wheel replaced by one for each of its
/// directions. Nothing changes for a device without a thumb wheel.
pub fn with_thumbwheel_rotation<C: Copy>(hotspots: Vec<Hotspot<C>>) -> (r: Vec<Hotspot<C>>)
    requires
        forall|i: int|
            0 <= i < hotspots@.len() ==> i32::MIN + THUMBWHEEL_ROTATION_OFFSET <= (#[trigger] hotspots@[i]).shift
                <= i32::MAX - THUMBWHEEL_ROTATION_OFFSET,
    ensures
        r@ == rotated(hotspots@),
{
    let ghost all = hotspots@;
    let ghost keep = no_wheel::<C>();
    let mut wheel: Option<Hotspot<C>> = None;
    let mut kept: Vec<Hotspot<C>> = Vec::new();
    let mut i: usize = 0;
    proof {
        reveal(Seq::filter);
        assert(kept@ =~= all.take(0).filter(keep));
    }
    while i < hotspots.len()
        invariant
            i <= hotspots@.len(),
            all == hotspots@,
            keep == no_wheel::<C>(),
            kept@ == all.take(i as int).filter(keep),
            match wheel {
                Some(found) => exists|k: int| #[trigger] is_wheel(all, k) && all[k] == found,
                None => forall|k: int| 0 <= k < i ==> (#[trigger] all[k]).id != ButtonId::Thumbwheel,
            },
        decreases hotspots@.len() - i,
    {
        let spot: Hotspot<C> = hotspots[i];
        proof {
            crate::seqs::lemma_filter_step(all, i as int, keep);
        }
        if spot.id == ButtonId::Thumbwheel {
            if wheel.is_none() {
                assert(is_wheel(all, i as int));
                wheel = Some(spot);
            }
        } else {
            kept.push(spot);
        }
        i += 1;
    }
    assert(all.take(hotspots@.len() as int) =~= all);
    match wheel {
        Some(found) => {
            proof {
                let k = choose|k: int| #[trigger] is_wheel(all, k) && all[k] == found;
                lemma_wheel_of(all, k);
            }
            kept.push(
                Hotspot {
                    id: ButtonId::ThumbwheelScrollUp,
                    x: found.x,
                    y: found.y,
                    w: found.w,
                    h: found.h,
                    shift: found.shift - THUMBWHEEL_ROTATION_OFFSET,
                },
            );
            kept.push(
                Hotspot {
                    id: ButtonId::ThumbwheelScrollDown,
                    x: found.x,
                    y: found.y,
                    w: found.w,
                    h: found.h,
                    shift: found.shift + THUMBWHEEL_ROTATION_OFFSET,
                },
            );
            kept
        },
        None => hotspots,
    }
}

/// The thumb wheel itself is not shown any more, and its two directions are,
/// up above down; every other hotspot stays as it is.
pub proof fn law_wheel_is_shown_by_its_directions<C>(hotspots: Seq<Hotspot<C>>)
    requires
        has_wheel(hotspots),
        forall|i: int| 0 <= i < hotspots.len() ==> (#[trigger] hotspots[i]).shift == 0,
    ensures
        !has_wheel(rotated(hotspots)),
        rotated(hotspots).len() == hotspots.filter(no_wheel()).len() + 2,
        forall|h: Hotspot<C>|
            h.id != ButtonId::Thumbwheel && #[trigger] hotspots.contains(h) ==> rotated(hotspots).contains(h),
        ({
            let n = rotated(hotspots).len();
            let (up, down) = (rotated(hotspots)[n - 2], rotated(hotspots)[n - 1]);
            &&& up.id == ButtonId::ThumbwheelScrollUp
            &&& down.id == ButtonId::ThumbwheelScrollDown
            &&& up.shift < down.shift
        }),
{
    let keep = no_wheel::<C>();
    let (kept, out) = (hotspots.filter(keep), rotated(hotspots));
    let first = lemma_first_wheel(hotspots);
    lemma_wheel_of(hotspots, first);
    assert forall|i: int| 0 <= i < out.len() implies (#[trigger] out[i]).id != ButtonId::Thumbwheel by {
        if i < kept.len() {
            assert(kept[i] == out[i]);
            assert(kept.contains(kept[i]));
            crate::seqs::lemma_filter_contains(hotspots, keep, kept[i]);
        }
    }
    assert forall|h: Hotspot<C>| h.id != ButtonId::Thumbwheel && #[trigger] hotspots.contains(h) implies out.contains(
        h,
    ) by {
        crate::seqs::lemma_filter_contains(hotspots, keep, h);
        let k = choose|k: int| 0 <= k < kept.len() && kept[k] == h;
        assert(out[k] == h);
    }
}

/// The primary clicks are never shown, whatever markers a picture has.
pub proof fn law_primary_clicks_are_not_shown<C>(assignments: Seq<Assignment<C>>, size: C, n: int)
    ensures
        forall|k: int|
            0 <= k < rotated(marker_hotspots(assignments, size, n)).len() ==> !is_primary(
                (#[trigger] rotated(marker_hotspots(assignments, size, n))[k]).id,
            ),
{
    let spots = marker_hotspots(assignments, size, n);
    let (keep, out) = (no_wheel::<C>(), rotated(spots));
    lemma_no_primary_marker(assignments, size, n);
    if has_wheel(spots) {
        let kept = spots.filter(keep);
        assert forall|k: int| 0 <= k < out.len() implies !is_primary((#[trigger] out[k]).id) by {
            if k < kept.len() {
                assert(kept[k] == out[k]);
                assert(kept.contains(kept[k]));
                crate::seqs::lemma_filter_contains(spots, keep, kept[k]);
                let j = choose|j: int| 0 <= j < spots.len() && spots[j] == kept[k];
                assert(!is_primary(spots[j].id));
            }
        }
    }
}

proof fn lemma_no_primary_marker<C>(assignments: Seq<Assignment<C>>, size: C, n: int)
    ensures
        forall|k: int|
            0 <= k < marker_hotspots(assignments, size, n).len() ==> !is_primary(
                (#[trigger] marker_hotspots(assignments, size, n)[k]).id,
            ),
    decreases n,
{
    if n > 0 {
        lemma_no_primary_marker(assignments, size, n - 1);
    }
}

proof fn lemma_first_wheel<C>(hotspots: Seq<Hotspot<C>>) -> (k: int)
    requires
        has_wheel(hotspots),
    ensures
        is_wheel(hotspots, k),
{
    let i = choose|i: int| 0 <= i < hotspots.len() && (#[trigger] hotspots[i]).id == ButtonId::Thumbwheel;
    lemma_first_wheel_up_to(hotspots, i)
}

proof fn lemma_first_wheel_up_to<C>(hotspots: Seq<Hotspot<C>>, i: int) -> (k: int)
    requires
        0 <= i < hotspots.len(),
        hotspots[i].id == ButtonId::Thumbwheel,
    ensures
        is_wheel(hotspots, k),
    decreases i,
{
    if is_wheel(hotspots, i) {
        i
    } else {
        let j = choose|j: int| 0 <= j < i && (#[trigger] hotspots[j]).id == ButtonId::Thumbwheel;
        lemma_first_wheel_up_to(hotspots, j)
    }
}

/// How many hotspots stand before hotspot `i` from top to bottom; of two at one
/// height, the earlier one stands first.
pub open spec fn slot_of(heights: Seq<i64>, i: int, n: int) -> int
    decreases n,
{
    if n <= 0 {
        0
    } else {
        slot_of(heights, i, n - 1) + if stands_before(heights, n - 1, i) {
            1int
        } else {
            0int
        }
    }
}

/// Hotspot `a` stands before hotspot `b` from top to bottom.
pub open spec fn stands_before(heights: Seq<i64>, a: int, b: int) -> bool {
    heights[a] < heights[b] || (heights[a] == heights[b] && a < b)
}

/// The slot of the label of each hotspot. Slots are numbered from top to bottom
/// as the hotspots stand at `heights`, so that the lines to the labels do not
/// cross.
pub fn label_slots(heights: &Vec<i64>) -> (r: Vec<usize>)
    ensures
        r@.len() == heights@.len(),
        forall|i: int| 0 <= i < r@.len() ==> (#[trigger] r@[i]) == slot_of(heights@, i, heights@.len() as int),
{
    let mut out: Vec<usize> = Vec::new();
    let mut i: usize = 0;
    while i < heights.len()
        invariant
            i <= heights@.len(),
            out@.len() == i,
            forall|k: int| 0 <= k < i ==> (#[trigger] out@[k]) == slot_of(heights@, k, heights@.len() as int),
        decreases heights@.len() - i,
    {
        let mut slot: usize = 0;
        let mut j: usize = 0;
        while j < heights.len()
            invariant
                i < heights@.len(),
                j <= heights@.len(),
                slot <= j,
                slot == slot_of(heights@, i as int, j as int),
            decreases heights@.len() - j,
        {
            if heights[j] < heights[i] || (heights[j] == heights[i] && j < i) {
                slot += 1;
            }
            j += 1;
        }
        out.push(slot);
        i += 1;
    }
    out
}

/// A hotspot that stands before another has the earlier slot, so the lines to
/// the labels do not cross and no slot is used twice.
pub proof fn law_slots_follow_heights(heights: Seq<i64>, a: int, b: int)
    requires
        0 <= a < heights.len(),
        0 <= b < heights.len(),
        stands_before(heights, a, b),
    ensures
        slot_of(heights, a, heights.len() as int) < slot_of(heights, b, heights.len() as int),
{
    lemma_slots(heights, a, b, heights.len() as int);
}

proof fn lemma_slots(heights: Seq<i64>, a: int, b: int, n: int)
    requires
        0 <= a < heights.len(),
        0 <= b < heights.len(),
        0 <= n <= heights.len(),
        stands_before(heights, a, b),
    ensures
        slot_of(heights, a, n) <= slot_of(heights, b, n),
        a < n ==> slot_of(heights, a, n) < slot_of(heights, b, n),
    decreases n,
{
    if n > 0 {
        lemma_slots(heights, a, b, n - 1);
    }
}

/// Every slot is one of as many as there are hotspots.
pub proof fn law_slots_are_in_range(heights: Seq<i64>, i: int)
    requires
        0 <= i < heights.len(),
    ensures
        0 <= slot_of(heights, i, heights.len() as int) < heights.len(),
{
    lemma_slot_range(heights, i, heights.len() as int);
}

proof fn lemma_slot_range(heights: Seq<i64>, i: int, n: int)
    requires
        0 <= i < heights.len(),
        0 <= n <= heights.len(),
    ensures
        0 <= slot_of(heights, i, n) <= n,
        i < n ==> slot_of(heights, i, n) < n,
    decreases n,
{
    if n > 0 {
        lemma_slot_range(heights, i, n - 1);
    }
}

/// The labels of the drawing that stands in for a picture.
pub fn default_labels() -> (r: Vec<Label>)
    ensures
        r@ == seq![
            Label { id: ButtonId::MiddleClick, side: Side::Left, y: 120 },
            Label { id: ButtonId::Back, side: Side::Left, y: 240 },
            Label { id: ButtonId::Forward, side: Side::Left, y: 340 },
            Label { id: ButtonId::DpiToggle, side: Side::Left, y: 430 },
            Label { id: ButtonId::GestureButton, side: Side::Left, y: 510 },
        ],
{
    let mut r: Vec<Label> = Vec::new();
    r.push(Label { id: ButtonId::MiddleClick, side: Side::Left, y: 120 });
    r.push(Label { id: ButtonId::Back, side: Side::Left, y: 240 });
    r.push(Label { id: ButtonId::Forward, side: Side::Left, y: 340 });
    r.push(Label { id: ButtonId::DpiToggle, side: Side::Left, y: 430 });
    r.push(Label { id: ButtonId::GestureButton, side: Side::Left, y: 510 });
    assert(r@ =~= seq![
        Label { id: ButtonId::MiddleClick, side: Side::Left, y: 120 },
        Label { id: ButtonId::Back, side: Side::Left, y: 240 },
        Label { id: ButtonId::Forward, side: Side::Left, y: 340 },
        Label { id: ButtonId::DpiToggle, side: Side::Left, y: 430 },
        Label { id: ButtonId::GestureButton, side: Side::Left, y: 510 },
    ]);
    r
}

/// Each button has one slot name, and no other name stands for a button.
pub proof fn law_slot_names_tell_the_button(name: Seq<char>)
    ensures
        slot_button(name) == Some(ButtonId::LeftClick) <==> name == "SLOT_NAME_LEFT_BUTTON"@,
        slot_button(name) == Some(ButtonId::RightClick) <==> name == "SLOT_NAME_RIGHT_BUTTON"@,
        slot_button(name) == Some(ButtonId::MiddleClick) <==> name == "SLOT_NAME_MIDDLE_BUTTON"@,
        slot_button(name) == Some(ButtonId::Back) <==> name == "SLOT_NAME_BACK_BUTTON"@,
        slot_button(name) == Some(ButtonId::Forward) <==> name == "SLOT_NAME_FORWARD_BUTTON"@,
        slot_button(name) == Some(ButtonId::DpiToggle) <==> name == "SLOT_NAME_MODESHIFT_BUTTON"@,
        slot_button(name) == Some(ButtonId::Thumbwheel) <==> name == "SLOT_NAME_THUMBWHEEL"@,
        slot_button(name) == Some(ButtonId::GestureButton) <==> name == "SLOT_NAME_GESTURE_BUTTON"@,
        slot_button(name) == Some(ButtonId::HapticPanel) <==> name == "ASSIGNMENT_NAME_SHOW_RADIAL_MENU"@,
        slot_button(name) != Some(ButtonId::ThumbwheelScrollUp) && slot_button(name) != Some(
            ButtonId::ThumbwheelScrollDown,
        ),
{
    reveal_strlit("SLOT_NAME_LEFT_BUTTON");
    reveal_strlit("SLOT_NAME_RIGHT_BUTTON");
    reveal_strlit("SLOT_NAME_MIDDLE_BUTTON");
    reveal_strlit("SLOT_NAME_BACK_BUTTON");
    reveal_strlit("SLOT_NAME_FORWARD_BUTTON");
    reveal_strlit("SLOT_NAME_MODESHIFT_BUTTON");
    reveal_strlit("SLOT_NAME_THUMBWHEEL");
    reveal_strlit("SLOT_NAME_GESTURE_BUTTON");
    reveal_strlit("ASSIGNMENT_NAME_SHOW_RADIAL_MENU");
    assert("SLOT_NAME_LEFT_BUTTON"@[10] != "SLOT_NAME_BACK_BUTTON"@[10]);
    assert("SLOT_NAME_FORWARD_BUTTON"@[10] != "SLOT_NAME_GESTURE_BUTTON"@[10]);
    assert("SLOT_NAME_LEFT_BUTTON"@.len() == 21);
    assert("SLOT_NAME_RIGHT_BUTTON"@.len() == 22);
    assert("SLOT_NAME_MIDDLE_BUTTON"@.len() == 23);
    assert("SLOT_NAME_BACK_BUTTON"@.len() == 21);
    assert("SLOT_NAME_FORWARD_BUTTON"@.len() == 24);
    assert("SLOT_NAME_MODESHIFT_BUTTON"@.len() == 26);
    assert("SLOT_NAME_THUMBWHEEL"@.len() == 20);
    assert("SLOT_NAME_GESTURE_BUTTON"@.len() == 24);
    assert("ASSIGNMENT_NAME_SHOW_RADIAL_MENU"@.len() == 32);
}

/// Each marker that stands for a button other than a primary click has a hotspot
/// at the place of the marker, of the size given, in the order of the markers.
/// Other markers have none.
pub proof fn law_marker_has_a_hotspot<C>(assignments: Seq<Assignment<C>>, size: C, n: int)
    requires
        0 <= n < assignments.len(),
    ensures
        ({
            let marker = assignments[n];
            let button = slot_button(marker.slot_name@);
            let (before, now) = (marker_hotspots(assignments, size, n), marker_hotspots(assignments, size, n + 1));
            let shown = button is Some && button->0 != ButtonId::LeftClick && button->0 != ButtonId::RightClick;
            &&& marker_hotspots(assignments, size, 0).len() == 0
            &&& !shown ==> now == before
            &&& shown ==> now.len() == before.len() + 1 && now.drop_last() == before && {
                let spot = now.last();
                &&& spot.id == button->0
                &&& spot.x == marker.x && spot.y == marker.y
                &&& spot.w == size && spot.h == size
                &&& spot.shift == 0
            }
        }),
{
    let (before, now) = (marker_hotspots(assignments, size, n), marker_hotspots(assignments, size, n + 1));
    if now.len() > before.len() {
        assert(now.drop_last() =~= before);
    }
}

/// The two directions of the thumb wheel stand where its first hotspot stood and
/// have its size, up 18 pixels higher and down 18 pixels lower, behind all other
/// hotspots. Without a thumb wheel nothing changes.
pub proof fn law_directions_stand_around_the_wheel<C>(hotspots: Seq<Hotspot<C>>, i: int, h: Hotspot<C>)
    requires
        0 <= i < hotspots.len(),
        i32::MIN + 18 <= hotspots[i].shift <= i32::MAX - 18,
        forall|j: int| 0 <= j < i ==> (#[trigger] hotspots[j]).id != ButtonId::Thumbwheel,
    ensures
        ({
            let (wheel, out) = (hotspots[i], rotated(hotspots));
            let n = out.len() as int;
            let (up, down) = (out[n - 2], out[n - 1]);
            wheel.id == ButtonId::Thumbwheel ==> {
                &&& n >= 2
                &&& up.id == ButtonId::ThumbwheelScrollUp && down.id == ButtonId::ThumbwheelScrollDown
                &&& up.shift == wheel.shift - 18 && down.shift == wheel.shift + 18
                &&& up.x == wheel.x && up.y == wheel.y && up.w == wheel.w && up.h == wheel.h
                &&& down.x == wheel.x && down.y == wheel.y && down.w == wheel.w && down.h == wheel.h
                &&& out.take(n - 2).contains(h) <==> hotspots.contains(h) && h.id != ButtonId::Thumbwheel
            }
        }),
        (forall|j: int| 0 <= j < hotspots.len() ==> (#[trigger] hotspots[j]).id != ButtonId::Thumbwheel) ==> rotated(
            hotspots,
        ) == hotspots,
{
    if hotspots[i].id == ButtonId::Thumbwheel {
        assert(is_wheel(hotspots, i));
        lemma_wheel_of(hotspots, i);
        let keep = no_wheel::<C>();
        let out = rotated(hotspots);
        assert(out.take(out.len() - 2) =~= hotspots.filter(keep));
        crate::seqs::lemma_filter_contains(hotspots, keep, h);
    }
}

/// Of two hotspots the higher one has the earlier slot, and of two at one height
/// the earlier one.
pub proof fn law_higher_hotspot_has_the_earlier_slot(heights: Seq<i64>, a: int, b: int)
    requires
        0 <= a < heights.len(),
        0 <= b < heights.len(),
        heights[a] < heights[b] || (heights[a] == heights[b] && a < b),
    ensures
        slot_of(heights, a, heights.len() as int) < slot_of(heights, b, heights.len() as int),
{
    law_slots_follow_heights(heights, a, b);
}

} // verus!
