use openlogi::buttons::{ButtonId, GestureDirection};
use openlogi::capture_plan::{GESTURE_BUTTON_CID, HAPTIC_PANEL_CID};
use openlogi::config::{
    SmartShift, SmartShiftMode, AUTO_DISENGAGE_PERMANENT, DEFAULT_THUMBWHEEL_SENSITIVITY,
};
use openlogi::device::DeviceRoute;
use openlogi::dpi::{DpiCapabilities, DpiCycleState, DpiCycles};
use openlogi::geometry::{
    asset_has_button_labels, asset_hotspots, default_labels, label_slots, map_slot_name, with_thumbwheel_rotation,
    Assignment, Hotspot, ResolvedAsset, Side,
};
use openlogi::gesture::{gesture_source_cids, CaptureAccum, CtrlIdInfo, RawControlEvent, SwipeRules};
use openlogi::sessions::CapturedInput;
use openlogi::smartshift_panel::{
    clamp_threshold, panel_content, raw_to_threshold, smartshift_load_target, smartshift_write_feedback, Feedback,
    LoadKind, PanelContent, SmartShiftPanel, SmartShiftWriteStatus, DEFAULT_THRESHOLD, THRESHOLD_MAX, THRESHOLD_MIN,
};
use openlogi::text::{text_before, text_eq};
use openlogi::thumbwheel::{
    decode_event, Message, MessageHeader, Thumbwheel, ThumbwheelEvent, ThumbwheelInfo, EV_PROXY, EV_SINGLE_TAP,
    EV_TOUCH, FN_SET_REPORTING,
};

#[test]
fn clamp_threshold_heals_sub_floor_to_default() {
    assert_eq!(clamp_threshold(0), DEFAULT_THRESHOLD);
    assert_eq!(clamp_threshold(1), DEFAULT_THRESHOLD);
    assert_eq!(clamp_threshold(THRESHOLD_MIN - 1), DEFAULT_THRESHOLD);
}

#[test]
fn clamp_threshold_keeps_in_band_values_and_clamps_high() {
    assert_eq!(clamp_threshold(THRESHOLD_MIN), THRESHOLD_MIN);
    assert_eq!(clamp_threshold(16), 16);
    assert_eq!(clamp_threshold(200), THRESHOLD_MAX);
}

#[test]
fn slider_places_are_brought_into_the_band() {
    assert_eq!(raw_to_threshold(-5), THRESHOLD_MIN);
    assert_eq!(raw_to_threshold(20), 20);
    assert_eq!(raw_to_threshold(1000), THRESHOLD_MAX);
}

fn ratchet(auto_disengage: u8) -> SmartShift {
    SmartShift { mode: SmartShiftMode::Ratchet, auto_disengage, tunable_torque: 7 }
}

#[test]
fn switching_permanent_on_and_off_goes_back_to_the_threshold() {
    let mut panel = SmartShiftPanel::new();
    let body = panel.ready_body(ratchet(30));
    assert_eq!(body.reseat, Some(30));
    assert_eq!(body.display, 30);
    assert!(body.sensitivity_enabled && !body.permanent);
    assert_eq!(body.permanent_click, ratchet(AUTO_DISENGAGE_PERMANENT));

    let on = panel.ready_body(body.permanent_click);
    assert!(on.permanent && !on.sensitivity_enabled);
    assert_eq!(on.reseat, None);
    assert_eq!(on.permanent_click, ratchet(30));
    assert_eq!(on.ratchet_click, ratchet(30), "ratchet mode does not arm the permanent ratchet again");
    assert_eq!(on.free_click.auto_disengage, AUTO_DISENGAGE_PERMANENT);
    assert_eq!(on.free_click.mode, SmartShiftMode::Free);
}

#[test]
fn a_drag_moves_the_number_and_the_release_commits() {
    let mut panel = SmartShiftPanel::new();
    panel.ready_body(ratchet(20));
    panel.threshold_changed(35);
    let body = panel.ready_body(ratchet(25));
    assert_eq!(body.display, 35);
    assert_eq!(body.reseat, None, "never mid-drag");
    let commit = panel.threshold_released(60, None);
    assert_eq!(commit, SmartShift { mode: SmartShiftMode::Ratchet, auto_disengage: 50, tunable_torque: 0 });
    assert_eq!(panel.threshold_released(10, Some(4)).tunable_torque, 4);
    assert_eq!(panel.last_threshold, 10);
}

#[test]
fn the_wheel_row_follows_the_selected_device() {
    let mut panel = SmartShiftPanel::new();
    let row = panel.wheel_sensitivity_row(None);
    assert_eq!((row.reseat, row.display), (None, DEFAULT_THUMBWHEEL_SENSITIVITY));
    let row = panel.wheel_sensitivity_row(Some(40));
    assert_eq!((row.reseat, row.display), (Some(40), 40));
    panel.sensitivity_changed(50);
    let row = panel.wheel_sensitivity_row(Some(41));
    assert_eq!((row.reseat, row.display), (None, 50));
    assert_eq!(panel.sensitivity_released(52), 52);
    assert_eq!(panel.last_wheel_sensitivity, 52);
}

#[test]
fn the_panel_shows_what_is_known() {
    assert_eq!(panel_content(LoadKind::Ready, false), PanelContent::Controls);
    assert_eq!(panel_content(LoadKind::Loading, true), PanelContent::Reading);
    assert_eq!(panel_content(LoadKind::Unknown, false), PanelContent::Offline);
    assert_eq!(panel_content(LoadKind::Failed, true), PanelContent::Retry);
    assert_eq!(panel_content(LoadKind::Unsupported, true), PanelContent::Unsupported);
    let applying = Some(SmartShiftWriteStatus::Applying { write_id: 3 });
    assert_eq!(smartshift_write_feedback(LoadKind::Ready, applying), Some(Feedback::Reading));
    assert_eq!(smartshift_write_feedback(LoadKind::Loading, applying), None);
    assert_eq!(
        smartshift_write_feedback(LoadKind::Ready, Some(SmartShiftWriteStatus::Confirmed)),
        Some(Feedback::Done)
    );
    assert_eq!(
        smartshift_write_feedback(LoadKind::Ready, Some(SmartShiftWriteStatus::Failed)),
        Some(Feedback::Retry)
    );
    assert_eq!(smartshift_write_feedback(LoadKind::Ready, None), None);
}

#[test]
fn only_an_unread_reachable_device_is_read() {
    let key = "k".to_string();
    let route = Some(DeviceRoute::Direct { vendor_id: 1, product_id: 2 });
    let applying = Some(SmartShiftWriteStatus::Applying { write_id: 3 });
    assert_eq!(smartshift_load_target(false, Some((&key, &route)), None), None);
    assert_eq!(smartshift_load_target(true, Some((&key, &None)), None), None);
    assert_eq!(smartshift_load_target(true, None, None), None);
    assert_eq!(
        smartshift_load_target(true, Some((&key, &route)), applying),
        Some(("k".to_string(), DeviceRoute::Direct { vendor_id: 1, product_id: 2 }, Some(3)))
    );
}

const ASSET_HOTSPOT: f32 = 56.;

#[test]
fn default_labels_include_the_gesture_button() {
    let labels = default_labels();
    assert!(
        labels.iter().any(|l| matches!(l.id, ButtonId::GestureButton)),
        "the gesture button needs a fallback label"
    );
}

#[test]
fn default_labels_stand_on_the_left_from_top_to_bottom() {
    let labels = default_labels();
    assert_eq!(labels.iter().map(|l| l.y).collect::<Vec<_>>(), vec![120, 240, 340, 430, 510]);
    assert!(labels.iter().all(|l| l.side == Side::Left));
}

#[test]
fn thumbwheel_click_becomes_two_rotation_hotspots() {
    let wheel = Hotspot {
        id: ButtonId::Thumbwheel,
        x: 100.,
        y: 200.,
        w: ASSET_HOTSPOT,
        h: ASSET_HOTSPOT,
        shift: 0,
    };
    let out = with_thumbwheel_rotation(vec![wheel]);
    assert!(
        !out.iter().any(|h| h.id == ButtonId::Thumbwheel),
        "the click hotspot is not surfaced in the model"
    );
    assert_eq!(out.len(), 2, "click is replaced by the two rotations");
    let up_y = out.iter().find(|h| h.id == ButtonId::ThumbwheelScrollUp).map(|h| h.y + h.shift as f32);
    let down_y = out.iter().find(|h| h.id == ButtonId::ThumbwheelScrollDown).map(|h| h.y + h.shift as f32);
    assert!(
        matches!((up_y, down_y), (Some(up), Some(down)) if up < down),
        "up sits above down"
    );
    assert_eq!((up_y, down_y), (Some(182.), Some(218.)));
}

#[test]
fn no_thumbwheel_leaves_hotspots_untouched() {
    let middle = Hotspot {
        id: ButtonId::MiddleClick,
        x: 0.,
        y: 0.,
        w: ASSET_HOTSPOT,
        h: ASSET_HOTSPOT,
        shift: 0,
    };
    let out = with_thumbwheel_rotation(vec![middle]);
    assert_eq!(out.len(), 1);
    assert_eq!(out[0].id, ButtonId::MiddleClick);
}

fn asset(names: &[&str]) -> ResolvedAsset<i32> {
    ResolvedAsset {
        assignments: names
            .iter()
            .enumerate()
            .map(|(i, name)| Assignment { slot_name: name.to_string(), x: i as i32, y: 10 * i as i32 })
            .collect(),
    }
}

#[test]
fn only_known_slots_make_labels_and_hotspots() {
    assert!(!asset_has_button_labels(&asset(&[])));
    assert!(!asset_has_button_labels(&asset(&["SLOT_NAME_UNHEARD_OF"])));
    let mouse = asset(&["SLOT_NAME_UNHEARD_OF", "SLOT_NAME_THUMBWHEEL", "SLOT_NAME_BACK_BUTTON"]);
    assert!(asset_has_button_labels(&mouse));
    let spots = asset_hotspots(&mouse, 56);
    let ids: Vec<ButtonId> = spots.iter().map(|h| h.id).collect();
    assert_eq!(ids, vec![ButtonId::Back, ButtonId::ThumbwheelScrollUp, ButtonId::ThumbwheelScrollDown]);
    assert_eq!((spots[0].x, spots[0].y, spots[0].w), (2, 20, 56));
}

#[test]
fn the_primary_clicks_have_no_hotspot() {
    let mouse = asset(&["SLOT_NAME_LEFT_BUTTON", "SLOT_NAME_MIDDLE_BUTTON", "SLOT_NAME_RIGHT_BUTTON"]);
    let ids: Vec<ButtonId> = asset_hotspots(&mouse, 56).iter().map(|h| h.id).collect();
    assert_eq!(ids, vec![ButtonId::MiddleClick]);
    let bare = asset(&["SLOT_NAME_LEFT_BUTTON", "SLOT_NAME_RIGHT_BUTTON"]);
    assert!(asset_hotspots(&bare, 56).is_empty());
}

#[test]
fn every_slot_name_maps_to_its_button() {
    let all = [
        ("SLOT_NAME_LEFT_BUTTON", ButtonId::LeftClick),
        ("SLOT_NAME_RIGHT_BUTTON", ButtonId::RightClick),
        ("SLOT_NAME_MIDDLE_BUTTON", ButtonId::MiddleClick),
        ("SLOT_NAME_BACK_BUTTON", ButtonId::Back),
        ("SLOT_NAME_FORWARD_BUTTON", ButtonId::Forward),
        ("SLOT_NAME_MODESHIFT_BUTTON", ButtonId::DpiToggle),
        ("SLOT_NAME_THUMBWHEEL", ButtonId::Thumbwheel),
        ("SLOT_NAME_GESTURE_BUTTON", ButtonId::GestureButton),
        ("ASSIGNMENT_NAME_SHOW_RADIAL_MENU", ButtonId::HapticPanel),
    ];
    for (name, id) in all {
        assert_eq!(map_slot_name(name), Some(id));
    }
    assert_eq!(map_slot_name("slot_name_left_button"), None);
}

#[test]
fn labels_track_hotspots_and_avoid_crossing() {
    let heights = vec![300, 40, 180, 40, 90];
    let slots = label_slots(&heights);
    assert_eq!(slots.len(), heights.len());
    assert_eq!(slots, vec![4, 0, 3, 1, 2]);
    let mut distinct = slots;
    distinct.sort();
    distinct.dedup();
    assert_eq!(distinct.len(), heights.len(), "each label gets a distinct slot");
}

fn event(function_id: u8, software_id: u8, payload: [u8; 16]) -> Message {
    Message::Long(MessageHeader::new(2, 6, function_id, software_id), payload)
}

#[test]
fn decodes_rotation_and_tap() {
    let mut p = [0u8; 16];
    p[0..2].copy_from_slice(&(-7i16).to_be_bytes());
    p[5] = EV_SINGLE_TAP | EV_TOUCH;
    assert_eq!(
        decode_event(&event(0, 0, p), 2, 6),
        Some(ThumbwheelEvent { rotation: -7, single_tap: true, touch: true, proxy: false })
    );
}

#[test]
fn ignores_responses_and_foreign_messages() {
    let p = [0u8; 16];
    assert_eq!(decode_event(&event(0, 5, p), 2, 6), None);
    assert_eq!(decode_event(&event(0, 0, p), 2, 9), None);
    assert_eq!(decode_event(&event(0, 0, p), 3, 6), None);
    assert_eq!(decode_event(&event(1, 0, p), 2, 6), None);
}

#[test]
fn a_short_message_counts_as_filled_up_with_zeroes() {
    let short = Message::Short(MessageHeader::new(2, 6, 0x10, 0x20), [0x01, 0x02, 0xff]);
    assert_eq!(
        decode_event(&short, 2, 6),
        Some(ThumbwheelEvent { rotation: 0x0102, single_tap: false, touch: false, proxy: false })
    );
    let mut p = [0u8; 16];
    p[5] = EV_PROXY;
    assert!(decode_event(&event(0, 0, p), 2, 6).expect("an event").proxy);
}

#[test]
fn every_rotation_survives_the_wire() {
    for rotation in [i16::MIN, -256, -1, 0, 1, 255, 256, i16::MAX] {
        let mut p = [0u8; 16];
        p[0..2].copy_from_slice(&rotation.to_be_bytes());
        assert_eq!(decode_event(&event(0, 0, p), 2, 6).map(|e| e.rotation), Some(rotation));
    }
}

#[test]
fn wheel_requests_carry_their_parameters() {
    let wheel = Thumbwheel::new(3, 11);
    assert_eq!(wheel.feature_index(), 11);
    let mut params = [0u8; 16];
    assert_eq!(wheel.get_info(0x1f), Message::Long(MessageHeader::new(3, 11, 0, 0x0f), params));
    params[0] = 1;
    params[1] = 1;
    let divert = wheel.set_reporting(true, true, 5);
    assert_eq!(divert, Message::Long(MessageHeader::new(3, 11, FN_SET_REPORTING, 5), params));
    assert_eq!(divert.header().software_id, 5);
    let back = wheel.set_reporting(false, false, 5);
    assert_eq!(back, Message::Long(MessageHeader::new(3, 11, FN_SET_REPORTING, 5), [0; 16]));
    let mut answer = [0u8; 16];
    answer[..6].copy_from_slice(&[0x00, 0x12, 0x01, 0x68, 0x03, 0x08]);
    assert_eq!(
        Thumbwheel::info(&event(0, 5, answer)),
        ThumbwheelInfo { native_res: 18, diverted_res: 360, default_dir: 1, supports_single_tap: true }
    );
}

const RULES: SwipeRules = SwipeRules { hold_gate: 150_000_000, travel: 60 };
const LATER: u64 = 500_000_000;

fn both_sources() -> Vec<u16> {
    vec![GESTURE_BUTTON_CID, HAPTIC_PANEL_CID]
}

fn press() -> RawControlEvent {
    RawControlEvent::DivertedButtons([GESTURE_BUTTON_CID, 0, 0, 0])
}

fn panel_press() -> RawControlEvent {
    RawControlEvent::DivertedButtons([HAPTIC_PANEL_CID, 0, 0, 0])
}

fn release() -> RawControlEvent {
    RawControlEvent::DivertedButtons([0, 0, 0, 0])
}

fn xy(dx: i16, dy: i16) -> RawControlEvent {
    RawControlEvent::RawXy { dx, dy }
}

fn feed(
    acc: &mut CaptureAccum,
    event: RawControlEvent,
    sources: &Vec<u16>,
    dpi: &Vec<u16>,
    buttons: &Vec<(u16, ButtonId)>,
    now: u64,
) -> Vec<CapturedInput> {
    acc.handle_reprog(event, sources, dpi, buttons, RULES, now)
}

#[test]
fn quick_tap_is_a_click_even_while_the_cursor_moves() {
    let mut acc = CaptureAccum::new();
    let sources = vec![GESTURE_BUTTON_CID];
    assert!(feed(&mut acc, press(), &sources, &vec![], &vec![], 0).is_empty());
    assert!(feed(&mut acc, xy(120, 5), &sources, &vec![], &vec![], 1).is_empty());
    assert_eq!(
        feed(&mut acc, release(), &sources, &vec![], &vec![], 2),
        vec![CapturedInput::Gesture(GestureDirection::Click)],
        "a quick tap emits exactly one click"
    );
}

#[test]
fn a_held_gesture_commits_a_swipe_and_does_not_also_click() {
    let mut acc = CaptureAccum::new();
    let sources = vec![GESTURE_BUTTON_CID];
    assert!(feed(&mut acc, press(), &sources, &vec![], &vec![], 0).is_empty());
    assert_eq!(
        feed(&mut acc, xy(120, 5), &sources, &vec![], &vec![], LATER),
        vec![CapturedInput::Gesture(GestureDirection::Right)]
    );
    assert!(
        feed(&mut acc, release(), &sources, &vec![], &vec![], LATER).is_empty(),
        "a committed swipe must not also click on release"
    );
}

#[test]
fn the_haptic_panel_gestures_like_the_dedicated_button() {
    let mut acc = CaptureAccum::new();
    let sources = both_sources();
    assert!(feed(&mut acc, panel_press(), &sources, &vec![], &vec![], 0).is_empty());
    assert!(feed(&mut acc, xy(-3000, 40), &sources, &vec![], &vec![], LATER).is_empty());
    assert_eq!(
        feed(&mut acc, xy(5, -120), &sources, &vec![], &vec![], LATER),
        vec![CapturedInput::Gesture(GestureDirection::Up)]
    );
    assert!(
        feed(&mut acc, release(), &sources, &vec![], &vec![], LATER).is_empty(),
        "a committed panel swipe must not also click on release"
    );
}

#[test]
fn a_quick_panel_tap_is_a_click() {
    let mut acc = CaptureAccum::new();
    let sources = both_sources();
    assert!(feed(&mut acc, panel_press(), &sources, &vec![], &vec![], 0).is_empty());
    assert_eq!(
        feed(&mut acc, release(), &sources, &vec![], &vec![], 1),
        vec![CapturedInput::Gesture(GestureDirection::Click)],
        "a panel tap emits exactly one click"
    );
}

#[test]
fn the_panels_first_raw_xy_sample_after_contact_is_discarded() {
    let mut acc = CaptureAccum::new();
    let sources = both_sources();
    feed(&mut acc, panel_press(), &sources, &vec![], &vec![], 0);
    assert!(
        feed(&mut acc, xy(-3000, 40), &sources, &vec![], &vec![], LATER).is_empty(),
        "the contact jump must not commit a swipe"
    );
    assert_eq!(
        feed(&mut acc, xy(120, 5), &sources, &vec![], &vec![], LATER),
        vec![CapturedInput::Gesture(GestureDirection::Right)]
    );
}

#[test]
fn the_dedicated_buttons_first_sample_is_not_discarded() {
    let mut acc = CaptureAccum::new();
    let sources = both_sources();
    feed(&mut acc, press(), &sources, &vec![], &vec![], 0);
    assert_eq!(
        feed(&mut acc, xy(120, 5), &sources, &vec![], &vec![], LATER),
        vec![CapturedInput::Gesture(GestureDirection::Right)],
        "the dedicated button's very first sample still counts"
    );
}

#[test]
fn a_plain_diverted_haptic_panel_presses_as_the_gesture_button() {
    let mut acc = CaptureAccum::new();
    let buttons = vec![(HAPTIC_PANEL_CID, ButtonId::GestureButton)];
    assert_eq!(
        feed(&mut acc, panel_press(), &vec![], &vec![], &buttons, 0),
        vec![CapturedInput::ButtonPressed(ButtonId::GestureButton)]
    );
    assert!(
        feed(&mut acc, release(), &vec![], &vec![], &buttons, 0).is_empty(),
        "a plain-diverted panel must not also emit a gesture click"
    );
}

#[test]
fn gesture_source_discovery_arms_whatever_the_device_exposes() {
    let dedicated = CtrlIdInfo { cid: GESTURE_BUTTON_CID, raw_xy: true };
    let panel = CtrlIdInfo { cid: HAPTIC_PANEL_CID, raw_xy: true };
    let no_raw_xy = CtrlIdInfo { cid: HAPTIC_PANEL_CID, raw_xy: false };
    assert_eq!(gesture_source_cids(&vec![dedicated]), vec![GESTURE_BUTTON_CID]);
    assert_eq!(gesture_source_cids(&vec![panel]), vec![HAPTIC_PANEL_CID]);
    assert_eq!(
        gesture_source_cids(&vec![dedicated, panel]),
        vec![GESTURE_BUTTON_CID, HAPTIC_PANEL_CID],
        "a device exposing both arms both"
    );
    assert_eq!(gesture_source_cids(&vec![no_raw_xy]), Vec::<u16>::new(), "raw-XY support is required");
}

#[test]
fn a_plain_diverted_gesture_button_presses_without_gesturing() {
    let mut acc = CaptureAccum::new();
    let buttons = vec![(GESTURE_BUTTON_CID, ButtonId::GestureButton)];
    assert_eq!(
        feed(&mut acc, press(), &vec![], &vec![], &buttons, 0),
        vec![CapturedInput::ButtonPressed(ButtonId::GestureButton)]
    );
    assert!(
        feed(&mut acc, release(), &vec![], &vec![], &buttons, 0).is_empty(),
        "a plain-diverted gesture button must not also emit a gesture click"
    );
}

#[test]
fn a_held_dpi_button_presses_once_on_the_rising_edge() {
    let mut acc = CaptureAccum::new();
    let dpi: u16 = 0x00fd;
    let down = RawControlEvent::DivertedButtons([dpi, 0, 0, 0]);
    let sources = vec![GESTURE_BUTTON_CID];
    assert_eq!(
        feed(&mut acc, down, &sources, &vec![dpi], &vec![], 0),
        vec![CapturedInput::ButtonPressed(ButtonId::DpiToggle)]
    );
    assert!(
        feed(&mut acc, down, &sources, &vec![dpi], &vec![], 0).is_empty(),
        "a held DPI button presses once"
    );
}

#[test]
fn a_dpi_button_re_presses_after_a_release() {
    let mut acc = CaptureAccum::new();
    let dpi: u16 = 0x00fd;
    let down = RawControlEvent::DivertedButtons([dpi, 0, 0, 0]);
    let sources = vec![GESTURE_BUTTON_CID];
    let pressed = vec![CapturedInput::ButtonPressed(ButtonId::DpiToggle)];
    assert_eq!(feed(&mut acc, down, &sources, &vec![dpi], &vec![], 0), pressed);
    assert!(feed(&mut acc, release(), &sources, &vec![dpi], &vec![], 0).is_empty());
    assert_eq!(
        feed(&mut acc, down, &sources, &vec![dpi], &vec![], 0),
        pressed,
        "a release re-arms the rising edge"
    );
}

#[test]
fn the_longer_side_gives_the_direction() {
    let sources = vec![GESTURE_BUTTON_CID];
    for (dx, dy, direction) in [
        (80, 10, GestureDirection::Right),
        (-80, 10, GestureDirection::Left),
        (10, 80, GestureDirection::Down),
        (10, -80, GestureDirection::Up),
    ] {
        let mut acc = CaptureAccum::new();
        feed(&mut acc, press(), &sources, &vec![], &vec![], 0);
        assert!(feed(&mut acc, xy(dx / 2, dy / 2), &sources, &vec![], &vec![], LATER).is_empty());
        assert_eq!(
            feed(&mut acc, xy(dx / 2, dy / 2), &sources, &vec![], &vec![], LATER),
            vec![CapturedInput::Gesture(direction)]
        );
        assert!(feed(&mut acc, xy(dx, dy), &sources, &vec![], &vec![], LATER).is_empty());
    }
}

fn cycle_state(presets: Vec<u32>) -> DpiCycleState {
    DpiCycleState { presets, index: 0, target: None, capabilities: None }
}

#[test]
fn cycling_visits_every_preset_and_comes_back() {
    let mut state = cycle_state(vec![400, 800, 1600]);
    let seen: Vec<Option<u32>> = (0..3).map(|_| state.cycle().map(|(dpi, _)| dpi)).collect();
    assert_eq!(seen, vec![Some(800), Some(1600), Some(400)]);
    assert_eq!(state.index, 0);
    assert_eq!(cycle_state(vec![]).cycle(), None);
}

#[test]
fn setting_a_preset_clamps_and_snaps() {
    let mut state = cycle_state(vec![400, 1000]);
    state.capabilities = Some(DpiCapabilities { values: vec![200, 900, 1100] });
    assert_eq!(state.set(9), Some((900, None)), "the first of two equally near values");
    assert_eq!(state.index, 1);
    assert_eq!(state.set(0), Some((200, None)));
    assert_eq!(cycle_state(vec![]).set(0), None);
    assert_eq!(DpiCapabilities { values: vec![] }.snap(77), 77);
}

#[test]
fn an_input_without_a_device_means_the_selected_one() {
    let mut cycles = DpiCycles::new();
    assert!(cycles.state_for(None).is_none());
    cycles.by_key.insert("a".to_string(), cycle_state(vec![1]));
    cycles.by_key.insert("b".to_string(), cycle_state(vec![2]));
    cycles.selected = Some("b".to_string());
    assert_eq!(cycles.state_for(None).expect("selected").presets, vec![2]);
    assert_eq!(cycles.state_for(Some("a")).expect("named").presets, vec![1]);
    assert!(cycles.state_for(Some("c")).is_none());
}

#[test]
fn text_is_compared_by_its_bytes() {
    assert!(text_eq("a\u{e9}", "a\u{e9}"));
    assert!(!text_eq("a", "ab"));
    assert!(text_before("a", "ab") && text_before("Z", "a") && text_before("a", "\u{e9}"));
    assert!(!text_before("ab", "a") && !text_before("a", "a"));
}

#[test]
fn without_presets_there_is_nothing_to_cycle_at_any_index() {
    let mut state = cycle_state(vec![]);
    state.index = usize::MAX;
    assert_eq!(state.cycle(), None);
    assert_eq!(state.index, usize::MAX);
}
