use openlogi::buttons::{Action, ButtonId, GestureDirection};
use openlogi::capture_plan::{plan_for_device, DeviceCapturePlan, ProjectedBindings, GESTURE_BUTTON_CID};
use openlogi::config::{AppSettings, Appearance, AssetSource, Config, DEFAULT_THUMBWHEEL_SENSITIVITY};
use openlogi::device::DeviceRoute;
use openlogi::sessions::{
    on_done, spec_for, thumbwheel_armed, CaptureSpec, CapturedInput, Dispatch, DoneAction, Manager, RunningSession,
};
use openlogi::table::Table;
use openlogi::wheel::{
    action_threshold, advance, scroll_multiplier, WheelDirection, WheelOutput, ACTION_COOLDOWN, ACTION_DECAY,
};

fn config() -> Config {
    Config::new(
        1,
        AppSettings {
            launch_at_login: false,
            show_in_menu_bar: true,
            check_for_updates: false,
            auto_install_updates: false,
            update_prompt_seen: false,
            appearance: Appearance::System,
            theme_light: None,
            theme_dark: None,
            ui_radius: None,
            thumbwheel_sensitivity: DEFAULT_THUMBWHEEL_SENSITIVITY,
            auto_download_assets: true,
            asset_source: AssetSource { number: 0 },
            language: None,
        },
    )
}

fn route() -> DeviceRoute {
    DeviceRoute::Bolt { receiver_uid: "cafe".to_string(), slot: 2 }
}

fn table<K: openlogi::value::Value, V>(entries: Vec<(K, V)>) -> Table<K, V> {
    let mut out = Table::new();
    for (key, value) in entries {
        out.insert(key, value);
    }
    out
}

fn defaults() -> Table<ButtonId, Action> {
    table(vec![
        (ButtonId::GestureButton, Action::Other(1)),
        (ButtonId::Back, Action::Other(2)),
        (ButtonId::Forward, Action::Other(3)),
        (ButtonId::ThumbwheelScrollUp, Action::HorizontalScrollRight),
        (ButtonId::ThumbwheelScrollDown, Action::HorizontalScrollLeft),
    ])
}

fn standard() -> Vec<(u16, ButtonId)> {
    vec![(0x0053, ButtonId::Back), (0x0056, ButtonId::Forward)]
}

fn plan(bindings: Vec<(ButtonId, Action)>, gestures: Vec<(GestureDirection, Action)>) -> DeviceCapturePlan {
    let projected = ProjectedBindings { bindings: table(bindings), gesture_bindings: table(gestures), oshook: vec![] };
    plan_for_device(&config(), "2b042", route(), projected, &defaults(), &standard())
}

#[test]
fn gestures_off_single_bound_gesture_button_is_plain_diverted() {
    let plan = plan(vec![(ButtonId::GestureButton, Action::CycleDpiPresets)], vec![]);
    assert_eq!(plan.gesture_bindings.len(), 0, "gestures are off, so no raw-XY gesture divert");
    assert!(
        plan.divert_buttons.contains(&(GESTURE_BUTTON_CID, ButtonId::GestureButton)),
        "a single-bound gesture button must be plain-diverted, or the binding can never fire"
    );
}

#[test]
fn gesture_owner_button_is_never_plain_diverted() {
    let plan = plan(
        vec![(ButtonId::GestureButton, Action::Other(9))],
        vec![(GestureDirection::Click, Action::Other(9)), (GestureDirection::Up, Action::VolumeUp)],
    );
    assert!(plan.gesture_bindings.len() > 0, "the gesture button owns the gesture role");
    assert!(
        !plan.divert_buttons.iter().any(|&(cid, _)| cid == GESTURE_BUTTON_CID),
        "the gesture owner is delivered via raw-XY divert, never a plain one"
    );
}

#[test]
fn gestures_off_default_gesture_button_stays_native() {
    let plan = plan(vec![(ButtonId::GestureButton, Action::Other(1))], vec![]);
    assert!(
        !plan.divert_buttons.iter().any(|&(cid, _)| cid == GESTURE_BUTTON_CID),
        "an unbound gesture button must not be captured"
    );
}

#[test]
fn buttons_of_the_os_hook_stay_native() {
    let projected = ProjectedBindings {
        bindings: table(vec![(ButtonId::Back, Action::VolumeUp), (ButtonId::Forward, Action::VolumeUp)]),
        gesture_bindings: Table::new(),
        oshook: vec![ButtonId::Back],
    };
    let plan = plan_for_device(&config(), "k", route(), projected, &defaults(), &standard());
    assert_eq!(plan.divert_buttons, vec![(0x0056, ButtonId::Forward)]);
    assert!(!plan.thumbwheel_bindings_nondefault);
    assert_eq!(plan.thumbwheel_sensitivity, DEFAULT_THUMBWHEEL_SENSITIVITY);
    assert_eq!(plan.config_key, "k");
}

#[test]
fn a_rebound_thumb_wheel_is_noticed() {
    let plan = plan(vec![(ButtonId::ThumbwheelScrollDown, Action::VolumeUp)], vec![]);
    assert!(plan.thumbwheel_bindings_nondefault);
    assert!(thumbwheel_armed(&plan));
}

#[test]
fn action_threshold_drops_with_sensitivity_and_floors_at_one() {
    assert_eq!(action_threshold(DEFAULT_THUMBWHEEL_SENSITIVITY), DEFAULT_THUMBWHEEL_SENSITIVITY);
    assert!(
        action_threshold(1) > action_threshold(DEFAULT_THUMBWHEEL_SENSITIVITY),
        "low sensitivity needs more increments"
    );
    assert_eq!(action_threshold(100), 1, "high sensitivity floors at one");
}

#[test]
fn scroll_accumulates_fractionally_at_sub_unity_sensitivity() {
    let mut dir = WheelDirection::new();
    let now = 1_000_000_000;
    let half = DEFAULT_THUMBWHEEL_SENSITIVITY / 2;
    assert_eq!(advance(&mut dir, &Action::HorizontalScrollRight, 1, half, now), WheelOutput::Idle);
    assert_eq!(advance(&mut dir, &Action::HorizontalScrollRight, 1, half, now), WheelOutput::Scroll(1));
}

#[test]
fn scroll_left_emits_negative_lines() {
    let mut dir = WheelDirection::new();
    assert_eq!(
        advance(&mut dir, &Action::HorizontalScrollLeft, 1, DEFAULT_THUMBWHEEL_SENSITIVITY, 0),
        WheelOutput::Scroll(-1)
    );
}

#[test]
fn directions_accumulate_independently() {
    let mut up = WheelDirection::new();
    let mut down = WheelDirection::new();
    let half = DEFAULT_THUMBWHEEL_SENSITIVITY / 2;
    assert_eq!(advance(&mut up, &Action::HorizontalScrollRight, 1, half, 0), WheelOutput::Idle);
    assert_eq!(advance(&mut down, &Action::HorizontalScrollLeft, 1, half, 0), WheelOutput::Idle);
    assert_eq!(advance(&mut up, &Action::HorizontalScrollRight, 1, half, 0), WheelOutput::Scroll(1));
}

#[test]
fn custom_action_fires_on_threshold_then_respects_cooldown() {
    let mut dir = WheelDirection::new();
    let now = 5_000_000_000;
    for _ in 0..DEFAULT_THUMBWHEEL_SENSITIVITY - 1 {
        assert_eq!(
            advance(&mut dir, &Action::VolumeUp, 1, DEFAULT_THUMBWHEEL_SENSITIVITY, now),
            WheelOutput::Idle
        );
    }
    assert_eq!(
        advance(&mut dir, &Action::VolumeUp, 1, DEFAULT_THUMBWHEEL_SENSITIVITY, now),
        WheelOutput::FireAction
    );
    for _ in 0..DEFAULT_THUMBWHEEL_SENSITIVITY {
        assert_eq!(
            advance(&mut dir, &Action::VolumeUp, 1, DEFAULT_THUMBWHEEL_SENSITIVITY, now),
            WheelOutput::Idle
        );
    }
}

#[test]
fn none_action_is_suppressed() {
    let mut dir = WheelDirection::new();
    assert_eq!(
        advance(&mut dir, &Action::NoAction, 5, DEFAULT_THUMBWHEEL_SENSITIVITY, 0),
        WheelOutput::Idle
    );
    assert_eq!(dir, WheelDirection::new());
}

/// A multiple of 2^-27 as a float.
fn float(n: i128) -> f32 {
    n as f32 / 134_217_728.0
}

#[test]
fn multiplier_is_unity_at_default_sensitivity() {
    let scroll_multiplier = |sensitivity: i32| float(scroll_multiplier(sensitivity));
    assert!((scroll_multiplier(DEFAULT_THUMBWHEEL_SENSITIVITY) - 1.0).abs() < f32::EPSILON);
    assert!(scroll_multiplier(DEFAULT_THUMBWHEEL_SENSITIVITY * 2) > 1.9);
    assert!(scroll_multiplier(1) < 0.1);
}

#[test]
fn multipliers_are_those_of_floats() {
    let far = [0, -1, i32::MIN, i32::MAX, 16_777_217, 16_777_219, 1_234_567_891, -987_654_321];
    for sensitivity in (-200..=200).chain(far) {
        let each = scroll_multiplier(sensitivity);
        assert_eq!(float(each), sensitivity as f32 / DEFAULT_THUMBWHEEL_SENSITIVITY as f32);
        assert_eq!(float(each) as f64 * 134_217_728.0, each as f64, "a float holds all of it");
    }
}

#[test]
fn scrolling_adds_up_as_floats_do() {
    let turns = [1, 1, 2, 7, 1, 3, 32_768, 5, 0, 1, 129, 16_777_217, 2, i32::MAX, 1, 1, 4095];
    for sensitivity in (-30..=100).chain([i32::MAX, i32::MIN, 16_777_219]) {
        let mut dir = WheelDirection::new();
        let mut scroll = 0.0_f32;
        for round in 0..40 {
            for turn in turns {
                let magnitude = if round % 3 == 2 { 1 } else { turn };
                scroll += magnitude as f32 * (sensitivity as f32 / DEFAULT_THUMBWHEEL_SENSITIVITY as f32);
                let lines = scroll.trunc();
                let expected = if lines >= 1.0 {
                    scroll -= lines;
                    WheelOutput::Scroll(-(lines as i32))
                } else {
                    WheelOutput::Idle
                };
                assert_eq!(advance(&mut dir, &Action::HorizontalScrollLeft, magnitude, sensitivity, 0), expected);
                assert_eq!(float(dir.scroll), scroll);
            }
        }
    }
}

#[test]
fn rounding_can_hold_a_line_back() {
    let mut dir = WheelDirection::new();
    let outputs: Vec<WheelOutput> =
        (0..14).map(|_| advance(&mut dir, &Action::HorizontalScrollRight, 1, 9, 0)).collect();
    assert_eq!(outputs.iter().filter(|out| **out == WheelOutput::Scroll(1)).count(), 8);
    assert_eq!(outputs[13], WheelOutput::Idle);
    assert_eq!(float(dir.scroll), 16_777_215.0 / 16_777_216.0);
}

#[test]
fn half_lines_add_up_in_either_direction() {
    for (action, sign) in [(Action::HorizontalScrollRight, 1), (Action::HorizontalScrollLeft, -1)] {
        let mut dir = WheelDirection::new();
        let mut lines = 0;
        for magnitude in [1, 5, 2, 9] {
            if let WheelOutput::Scroll(some) = advance(&mut dir, &action, magnitude, 21, 0) {
                lines += sign * some;
            }
        }
        assert_eq!((lines, float(dir.scroll)), (25, 0.5), "seventeen times one and a half");
    }
}

#[test]
fn a_rotation_while_cooling_needs_no_room() {
    let mut dir = WheelDirection { scroll: 0, action: i32::MAX, last_event: Some(0), last_fired: Some(0) };
    assert_eq!(advance(&mut dir, &Action::VolumeUp, i32::MAX, i32::MIN, 1), WheelOutput::Idle);
    assert_eq!(dir.action, i32::MAX);
}

#[test]
fn a_pause_forgets_progress_but_only_past_the_decay() {
    let mut dir = WheelDirection::new();
    assert_eq!(advance(&mut dir, &Action::VolumeUp, 13, 14, 0), WheelOutput::Idle);
    assert_eq!(advance(&mut dir, &Action::VolumeUp, 0, 14, ACTION_DECAY), WheelOutput::Idle);
    assert_eq!(dir.action, 13);
    assert_eq!(advance(&mut dir, &Action::VolumeUp, 1, 14, 2 * ACTION_DECAY + 1), WheelOutput::Idle);
    assert_eq!(dir.action, 1);
}

#[test]
fn the_cooldown_ends_at_its_bound() {
    let mut dir = WheelDirection::new();
    assert_eq!(advance(&mut dir, &Action::VolumeUp, 14, 14, 0), WheelOutput::FireAction);
    assert_eq!(advance(&mut dir, &Action::VolumeUp, 14, 14, ACTION_COOLDOWN - 1), WheelOutput::Idle);
    assert_eq!(advance(&mut dir, &Action::VolumeUp, 14, 14, ACTION_COOLDOWN), WheelOutput::FireAction);
}

#[test]
fn one_increment_leaves_room_for_the_next() {
    let mut dir = WheelDirection::new();
    assert_eq!(advance(&mut dir, &Action::VolumeUp, 32_768, 14, 0), WheelOutput::FireAction);
    assert_eq!(dir.action, 0);
}

fn stopped_session_with_epoch(epoch: u64) -> RunningSession {
    RunningSession {
        route: DeviceRoute::Direct { vendor_id: 0x046d, product_id: 0xc548 },
        spec: CaptureSpec { capture_thumbwheel: false, divert_gesture_button: false, divert_buttons: vec![] },
        stop: false,
        epoch,
    }
}

fn live_session_with_epoch(epoch: u64) -> RunningSession {
    RunningSession { stop: true, ..stopped_session_with_epoch(epoch) }
}

#[test]
fn rearms_when_the_current_session_dies() {
    assert_eq!(on_done(7, Some(&live_session_with_epoch(7))), DoneAction::Remove { unexpected: true });
}

#[test]
fn ignores_a_stale_session_superseded_by_a_restart() {
    assert_eq!(on_done(6, Some(&live_session_with_epoch(7))), DoneAction::Ignore);
}

#[test]
fn ignores_a_completion_for_an_untracked_device() {
    assert_eq!(on_done(7, None), DoneAction::Ignore);
}

#[test]
fn settles_a_draining_session_quietly() {
    assert_eq!(on_done(7, Some(&stopped_session_with_epoch(7))), DoneAction::Remove { unexpected: false });
}

#[test]
fn a_changed_plan_restarts_its_session_only_once_the_old_one_has_ended() {
    let mut manager = Manager::new();
    let tick = manager.tick(&vec![plan(vec![], vec![])], false);
    assert!(tick.stop.is_empty());
    assert_eq!(tick.start.len(), 1);
    let epoch = manager.start(&tick.start[0]);
    assert_eq!(epoch, 1);

    let steady = manager.tick(&vec![plan(vec![], vec![])], false);
    assert!(steady.stop.is_empty() && steady.start.is_empty());

    let changed = || vec![plan(vec![(ButtonId::Back, Action::VolumeUp)], vec![])];
    let stopping = manager.tick(&changed(), false);
    assert_eq!(stopping.stop, vec!["2b042".to_string()]);
    assert!(stopping.start.is_empty());
    let waiting = manager.tick(&changed(), false);
    assert!(waiting.stop.is_empty() && waiting.start.is_empty());

    assert_eq!(manager.done(&"2b042".to_string(), 9), DoneAction::Ignore);
    assert_eq!(manager.done(&"2b042".to_string(), epoch), DoneAction::Remove { unexpected: false });
    let again = manager.tick(&changed(), false);
    assert_eq!(again.start.len(), 1);
    assert_eq!(again.start[0].spec.divert_buttons, vec![(0x0053, ButtonId::Back)]);
    assert_eq!(manager.start(&again.start[0]), 2);
}

#[test]
fn pairing_stops_every_session_and_starts_none() {
    let mut manager = Manager::new();
    let tick = manager.tick(&vec![plan(vec![], vec![])], false);
    manager.start(&tick.start[0]);
    let pairing = manager.tick(&vec![plan(vec![], vec![])], true);
    assert_eq!(pairing.stop.len(), 1);
    assert!(pairing.start.is_empty());
}

#[test]
fn of_two_plans_with_one_key_the_later_counts() {
    let mut manager = Manager::new();
    let tick = manager.tick(&vec![plan(vec![], vec![]), plan(vec![(ButtonId::Back, Action::VolumeUp)], vec![])], false);
    assert_eq!(tick.start.len(), 1);
    assert_eq!(tick.start[0].spec.divert_buttons.len(), 1);
}

#[test]
fn the_session_takes_over_what_the_plan_asks_for() {
    let spec = spec_for(&plan(vec![], vec![(GestureDirection::Up, Action::VolumeUp)]));
    assert_eq!(
        spec,
        CaptureSpec { capture_thumbwheel: false, divert_gesture_button: true, divert_buttons: vec![] }
    );
}

const WHEEL: (Action, Action) = (Action::HorizontalScrollRight, Action::HorizontalScrollLeft);

#[test]
fn inputs_are_resolved_by_the_plan_of_their_device() {
    let mut manager = Manager::new();
    let plans = vec![plan(
        vec![(ButtonId::Back, Action::VolumeUp)],
        vec![(GestureDirection::Left, Action::CycleDpiPresets)],
    )];
    let back = CapturedInput::ButtonPressed(ButtonId::Back);
    assert_eq!(manager.dispatch("2b042", back, &plans, WHEEL, 0), Dispatch::Run(Action::VolumeUp));
    assert_eq!(manager.dispatch("other", back, &plans, WHEEL, 0), Dispatch::Nothing);
    let forward = CapturedInput::ButtonPressed(ButtonId::Forward);
    assert_eq!(manager.dispatch("2b042", forward, &plans, WHEEL, 0), Dispatch::Nothing);
    let left = CapturedInput::Gesture(GestureDirection::Left);
    assert_eq!(manager.dispatch("2b042", left, &plans, WHEEL, 0), Dispatch::Run(Action::CycleDpiPresets));
    let up = CapturedInput::Gesture(GestureDirection::Up);
    assert_eq!(manager.dispatch("2b042", up, &plans, WHEEL, 0), Dispatch::Nothing);
}

#[test]
fn the_wheel_scrolls_by_default_and_fires_bound_actions() {
    let mut manager = Manager::new();
    let plans = vec![plan(vec![(ButtonId::ThumbwheelScrollDown, Action::VolumeUp)], vec![])];
    assert_eq!(manager.dispatch("2b042", CapturedInput::Scroll(3), &plans, WHEEL, 0), Dispatch::Scroll(3));
    assert_eq!(manager.dispatch("2b042", CapturedInput::Scroll(-13), &plans, WHEEL, 0), Dispatch::Nothing);
    assert_eq!(manager.dispatch("2b042", CapturedInput::Scroll(2), &plans, WHEEL, 0), Dispatch::Scroll(2));
    assert_eq!(
        manager.dispatch("2b042", CapturedInput::Scroll(-1), &plans, WHEEL, 0),
        Dispatch::Run(Action::VolumeUp)
    );
    assert_eq!(manager.dispatch("2b042", CapturedInput::Scroll(i16::MIN), &plans, WHEEL, 1), Dispatch::Nothing);
}

#[test]
fn pending_rotation_is_forgotten_with_the_plan() {
    let mut manager = Manager::new();
    let plans = vec![plan(vec![(ButtonId::ThumbwheelScrollUp, Action::VolumeUp)], vec![])];
    manager.dispatch("2b042", CapturedInput::Scroll(5), &plans, WHEEL, 0);
    assert_eq!(manager.accumulators.len(), 1);
    manager.tick(&vec![], false);
    assert_eq!(manager.accumulators.len(), 0);
}

#[test]
fn a_sensitivity_out_of_range_concerns_only_the_wheel_of_its_device() {
    let mut manager = Manager::new();
    let mut far = plan(vec![(ButtonId::Back, Action::VolumeUp)], vec![]);
    far.thumbwheel_sensitivity = i32::MIN;
    let mut near = plan(vec![], vec![]);
    near.config_key = "near".to_string();
    let plans = vec![far, near];
    let back = CapturedInput::ButtonPressed(ButtonId::Back);
    assert_eq!(manager.dispatch("2b042", back, &plans, WHEEL, 0), Dispatch::Run(Action::VolumeUp));
    assert_eq!(manager.dispatch("near", CapturedInput::Scroll(3), &plans, WHEEL, 0), Dispatch::Scroll(3));
    let wheel = manager.dispatch("2b042", CapturedInput::Scroll(3), &plans, WHEEL, 0);
    assert_eq!(wheel, Dispatch::Nothing, "a wheel that scrolls needs no sensitivity within range");
}
