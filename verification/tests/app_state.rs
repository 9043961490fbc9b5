use openlogi::app_state::{
    reload_after_save, set_scroll_resolution_if_supported, AgentLink, AgentStatus, AppState, BindingChange,
    BindingEdit, Effects, EventTapInfo, GestureSource, MonitorEvent, Persist, DEFAULT_DPI, MONITOR_EVENTS_MAX,
};
use openlogi::buttons::{Action, ButtonId, GestureDirection};
use openlogi::config::{
    AppSettings, Appearance, AssetSource, Config, DeviceIdentity, Lighting, ScrollResolution, SmartShift,
    SmartShiftMode,
};
use openlogi::device::{Capabilities, DeviceKind, DeviceModelInfo, DeviceRoute, DeviceTransports};
use openlogi::dpi::{DpiCapabilities, DpiInfo};
use openlogi::load::{Load, WriteError, WriteErrorKind, READ_BUDGET};
use openlogi::orchestrator::{DeviceChange, DeviceWrite, HookProjection, InventoryHealth};
use openlogi::records::{DeviceRecord, INVENTORY_MISS_GRACE};
use openlogi::table::Table;
use openlogi::value::Value;

fn config() -> Config {
    Config::new(
        3,
        AppSettings {
            launch_at_login: false,
            show_in_menu_bar: true,
            check_for_updates: false,
            auto_install_updates: false,
            update_prompt_seen: false,
            appearance: Appearance::System,
            theme_light: None,
            theme_dark: None,
            ui_radius: None,
            thumbwheel_sensitivity: 14,
            auto_download_assets: true,
            asset_source: AssetSource { number: 0 },
            language: None,
        },
    )
}

fn route(slot: u8) -> DeviceRoute {
    DeviceRoute::Bolt { receiver_uid: "AA00".to_string(), slot }
}

fn capabilities(hires_wheel: bool, scroll_inversion: bool) -> Capabilities {
    Capabilities { hires_wheel, scroll_inversion, panels: 0 }
}

fn model() -> DeviceModelInfo {
    DeviceModelInfo {
        entity_count: 0,
        serial_number: None,
        unit_id: [0; 4],
        transports: DeviceTransports { usb: false, equad: false, btle: false, bluetooth: false },
        model_ids: [0xb034, 0, 0],
        extended_model_id: 2,
    }
}

fn record(key: &str, slot: u8) -> DeviceRecord {
    DeviceRecord {
        config_key: key.to_string(),
        model_key: "2b034".to_string(),
        stable_id: format!("bolt-AA00-{slot}"),
        display_name: format!("Mouse {key}"),
        kind: DeviceKind::Mouse,
        codename: None,
        model_info: None,
        capabilities: Some(capabilities(true, true)),
        route: Some(route(slot)),
        online: true,
        asset: None,
    }
}

fn state(list: Vec<DeviceRecord>) -> AppState {
    AppState::with_runtime(config(), list).0
}

fn reload() -> Effects {
    Effects { write: None, edit: None, persist: Persist::SaveThenReload, project: false }
}

fn failed(kind: WriteErrorKind) -> WriteError {
    WriteError { kind, message: "no answer".to_string() }
}

fn keys(state: &AppState) -> Vec<&str> {
    state.device_list.iter().map(|r| r.config_key.as_str()).collect()
}

#[test]
fn known_offline_device_is_an_asset_sync_target() {
    let mut config = config();
    config.set_device_identity(
        "2b034",
        DeviceIdentity {
            display_name: "MX Anywhere 3S".to_string(),
            kind: DeviceKind::Mouse,
            capabilities: capabilities(false, false),
            model_info: Some(model()),
            codename: Some("MX Anywhere 3S".to_string()),
        },
    );
    let restored = DeviceRecord {
        display_name: "MX Anywhere 3S".to_string(),
        codename: Some("MX Anywhere 3S".to_string()),
        model_info: Some(model()),
        route: None,
        online: false,
        ..record("2b034", 1)
    };
    let (state, _) = AppState::with_runtime(config, vec![restored]);
    assert_eq!(state.asset_models(), vec![(model(), Some("MX Anywhere 3S".to_string()))]);
}

#[test]
fn gui_state_saves_and_clears_supported_wheel_resolution() {
    let mut config = config();
    assert!(set_scroll_resolution_if_supported(&mut config, "mouse", true, Some(ScrollResolution::Low)));
    assert_eq!(config.scroll_resolution("mouse"), Some(ScrollResolution::Low));

    assert!(set_scroll_resolution_if_supported(&mut config, "mouse", true, None));
    assert_eq!(config.scroll_resolution("mouse"), None);
}

#[test]
fn gui_state_ignores_unsupported_wheel_resolution() {
    let mut config = config();
    assert!(!set_scroll_resolution_if_supported(&mut config, "mouse", false, Some(ScrollResolution::High)));
    assert_eq!(config.scroll_resolution("mouse"), None);
}

#[test]
fn start_shows_the_selected_device_and_remembers_identities() {
    let mut config = config();
    config.selected_device = Some("b".to_string());
    let list = vec![record("a", 1), DeviceRecord { online: false, ..record("b", 2) }];
    let (state, effects) = AppState::with_runtime(config, list);
    assert_eq!(state.current_record().map(|r| r.config_key.as_str()), Some("b"));
    assert_eq!(effects, Effects { persist: Persist::Save, project: true, ..Effects::none() });
    assert_eq!(state.config_summary(), (3, 1));
    assert_eq!(state.dpi, DEFAULT_DPI);
    assert_eq!(*state.agent_link(), AgentLink::Connecting);
    assert!(state.agent_status().is_none());
}

#[test]
fn identities_do_not_name_the_unit() {
    let mut own = model();
    own.serial_number = Some("S1".to_string());
    own.unit_id = [1, 2, 3, 4];
    let shown = DeviceRecord { model_info: Some(own), ..record("a", 1) };
    let state = state(vec![shown]);
    let identity = DeviceIdentity {
        display_name: "Mouse a".to_string(),
        kind: DeviceKind::Mouse,
        capabilities: capabilities(true, true),
        model_info: Some(model()),
        codename: None,
    };
    assert!(state.config.has_identity("a", &identity));
}

#[test]
fn a_quiet_snapshot_changes_nothing() {
    let mut state = state(vec![record("a", 1)]);
    assert_eq!(state.refresh_inventories(&vec![record("a", 1)], false), (false, Effects::none()));
    let (taken, effects) = state.refresh_inventories(&vec![record("a", 1)], true);
    assert!(taken);
    assert_eq!(effects, Effects { project: true, ..Effects::none() });
}

#[test]
fn a_missing_device_stays_during_the_grace_then_goes() {
    let mut state = state(vec![record("a", 1), record("b", 2)]);
    for _ in 0..INVENTORY_MISS_GRACE {
        let (taken, _) = state.refresh_inventories(&vec![record("a", 1)], false);
        assert!(!taken);
        assert_eq!(keys(&state), vec!["a", "b"]);
    }
    let (taken, _) = state.refresh_inventories(&vec![record("a", 1)], false);
    assert!(taken);
    assert_eq!(keys(&state), vec!["a"]);
    assert_eq!(state.inventory_misses.len(), 0);
}

#[test]
fn a_sighting_starts_the_grace_anew() {
    let mut state = state(vec![record("a", 1)]);
    state.refresh_inventories(&vec![], false);
    assert_eq!(state.inventory_misses.get(&"a".to_string()), Some(&1));
    state.refresh_inventories(&vec![record("a", 1)], false);
    assert_eq!(state.inventory_misses.get(&"a".to_string()), None);
}

#[test]
fn a_new_device_takes_its_place_and_the_selection_stays() {
    let mut state = state(vec![record("b", 2), record("d", 4)]);
    state.set_current_device(1);
    let (taken, _) = state.refresh_inventories(&vec![record("d", 4), record("a", 1), record("b", 2)], false);
    assert!(taken);
    assert_eq!(keys(&state), vec!["a", "b", "d"]);
    assert_eq!(state.current_record().map(|r| r.config_key.as_str()), Some("d"));
}

#[test]
fn a_rerouted_device_is_read_anew() {
    let mut state = state(vec![record("a", 1), record("b", 2)]);
    let info = || DpiInfo { current: 800, capabilities: DpiCapabilities { values: vec![800, 1600] } };
    state.store_dpi_info("a".to_string(), &route(1), Ok(info()));
    state.store_dpi_info("b".to_string(), &route(2), Ok(info()));
    assert_eq!(state.dpi, 800);
    let moved = DeviceRecord { route: Some(route(5)), ..record("a", 1) };
    state.refresh_inventories(&vec![moved, record("b", 2)], false);
    assert!(state.current_dpi_unqueried());
    assert_eq!(state.dpi, DEFAULT_DPI);
    assert!(matches!(state.dpi_status_for(&"b".to_string()), Some(Load::Ready(_))));
}

#[test]
fn choosing_a_device_stores_it_and_retries_failed_reads() {
    let mut state = state(vec![record("a", 1), record("b", 2)]);
    for _ in 0..READ_BUDGET {
        state.store_dpi_info("b".to_string(), &route(2), Err(failed(WriteErrorKind::Other)));
    }
    assert!(matches!(state.dpi_status_for(&"b".to_string()), Some(Load::Failed(_))));
    assert_eq!(state.set_current_device(0), Effects::none());
    assert_eq!(state.set_current_device(7), Effects::none());
    assert_eq!(state.set_current_device(1), Effects { project: true, ..reload() });
    assert!(state.current_dpi_unqueried());
    assert_eq!(state.config.selected_device.as_deref(), Some("b"));
}

#[test]
fn a_read_that_fails_is_made_again_until_the_budget_is_used_up() {
    let mut state = state(vec![record("a", 1)]);
    for _ in 1..READ_BUDGET {
        state.mark_dpi_loading(&"a".to_string());
        state.store_dpi_info("a".to_string(), &route(1), Err(failed(WriteErrorKind::Other)));
        assert!(state.current_dpi_unqueried());
    }
    state.store_dpi_info("a".to_string(), &route(1), Err(failed(WriteErrorKind::Other)));
    assert_eq!(state.current_dpi_status(), Load::Failed("no answer".to_string()));
    state.retry_active_dpi();
    assert!(state.current_dpi_unqueried());
}

#[test]
fn permanent_errors_end_the_reading() {
    let mut state = state(vec![record("a", 1)]);
    state.store_dpi_info("a".to_string(), &route(1), Err(failed(WriteErrorKind::EmptyDpiList)));
    assert_eq!(state.current_dpi_status(), Load::Unsupported("no answer".to_string()));
    state.store_smartshift_status("a".to_string(), &route(1), Err(failed(WriteErrorKind::EmptyDpiList)));
    assert!(state.current_smartshift_unqueried());
    state.store_smartshift_status("a".to_string(), &route(1), Err(failed(WriteErrorKind::FeatureUnsupported)));
    assert!(matches!(state.current_smartshift_status(), Load::Unsupported(_)));
}

#[test]
fn answers_of_an_old_route_or_a_gone_device_are_not_used() {
    let mut state = state(vec![record("a", 1)]);
    let info = || DpiInfo { current: 400, capabilities: DpiCapabilities { values: vec![400] } };
    state.mark_dpi_loading(&"a".to_string());
    state.store_dpi_info("a".to_string(), &route(9), Ok(info()));
    assert!(state.current_dpi_unqueried());
    assert_eq!(state.dpi, DEFAULT_DPI);
    state.store_dpi_info("gone".to_string(), &route(1), Ok(info()));
    assert!(state.dpi_status_for(&"gone".to_string()).is_none());
}

#[test]
fn a_lost_reader_leaves_the_device_to_be_read() {
    let mut state = state(vec![record("a", 1)]);
    state.mark_dpi_loading(&"a".to_string());
    assert_eq!(state.current_dpi_status(), Load::Loading);
    state.clear_dpi_loading(&"a".to_string());
    assert!(state.current_dpi_unqueried());
    state.mark_smartshift_loading(&"a".to_string());
    assert!(!state.current_smartshift_unqueried());
    state.clear_smartshift_loading(&"a".to_string());
    assert!(state.current_smartshift_unqueried());
}

#[test]
fn dpi_is_shown_written_and_stored() {
    let mut state = state(vec![record("a", 1)]);
    let effects = state.commit_dpi(1200);
    assert_eq!(
        effects,
        Effects { write: Some(DeviceWrite { route: route(1), change: DeviceChange::Dpi(1200) }), ..reload() }
    );
    assert_eq!((state.dpi, state.config.dpi("a")), (1200, Some(1200)));
    state.commit_dpi_presets(vec![400, 800]);
    assert_eq!(state.dpi_presets(), vec![400, 800]);
    state.store_dpi_info(
        "a".to_string(),
        &route(1),
        Ok(DpiInfo { current: 800, capabilities: DpiCapabilities { values: vec![800, 1600] } }),
    );
    assert_eq!(state.normalize_active_dpi(1300), 1600);
    assert_eq!(state.active_dpi_capabilities().map(|c| c.values.len()), Some(2));
}

#[test]
fn without_a_device_a_dpi_change_is_only_shown() {
    let mut state = state(vec![]);
    assert_eq!(state.commit_dpi(900), Effects::none());
    assert_eq!(state.dpi, 900);
    assert_eq!(state.normalize_active_dpi(900), 900);
    assert!(state.dpi_presets().is_empty());
    assert_eq!(state.commit_dpi_presets(vec![1]), Effects::none());
}

#[test]
fn smartshift_is_written_shown_and_read_back_once() {
    let mut state = state(vec![record("a", 1)]);
    let wanted = SmartShift { mode: SmartShiftMode::Ratchet, auto_disengage: 30, tunable_torque: 2 };
    let effects = state.commit_smartshift(wanted);
    assert_eq!(
        effects,
        Effects { write: Some(DeviceWrite { route: route(1), change: DeviceChange::SmartShift(wanted) }), ..reload() }
    );
    assert_eq!(state.current_smartshift_ready(), Some(wanted));
    assert_eq!(state.config.smartshift("a"), Some(wanted));
    assert_eq!(state.take_active_smartshift_confirm(), Some(("a".to_string(), route(1))));
    assert_eq!(state.take_active_smartshift_confirm(), None);
    state.retry_active_smartshift();
    assert_eq!(state.current_smartshift_ready(), None);
}

#[test]
fn a_device_out_of_reach_keeps_its_read_back() {
    let away = DeviceRecord { route: None, ..record("a", 1) };
    let mut state = state(vec![away]);
    let wanted = SmartShift { mode: SmartShiftMode::Free, auto_disengage: 16, tunable_torque: 0 };
    assert_eq!(state.commit_smartshift(wanted), reload());
    assert_eq!(state.take_active_smartshift_confirm(), None);
    assert_eq!(state.smartshift_pending_confirm, vec!["a".to_string()]);
}

#[test]
fn wheel_settings_need_a_wheel_that_has_them() {
    let mut able = state(vec![record("a", 1)]);
    assert_eq!(able.commit_invert_scroll(true), reload());
    assert!(able.current_invert_scroll());
    assert_eq!(able.commit_scroll_resolution(Some(ScrollResolution::High)), reload());
    assert_eq!(able.current_scroll_resolution(), Some(ScrollResolution::High));
    assert!(able.current_hires_wheel_supported() && able.current_scroll_inversion_supported());

    let plain = DeviceRecord { capabilities: Some(capabilities(false, false)), ..record("a", 1) };
    let mut unable = state(vec![plain]);
    assert_eq!(unable.commit_invert_scroll(true), Effects::none());
    assert_eq!(unable.commit_scroll_resolution(Some(ScrollResolution::High)), Effects::none());
    assert!(!unable.current_invert_scroll());
    assert_eq!(unable.current_scroll_resolution(), None);
}

#[test]
fn lighting_is_written_and_stored() {
    let usual = Lighting { enabled: false, color: 0, brightness: 50 };
    let wanted = Lighting { enabled: true, color: 0x00ff00, brightness: 90 };
    let mut state = state(vec![record("a", 1)]);
    assert_eq!(state.lighting(usual), usual);
    let effects = state.commit_lighting(wanted);
    assert_eq!(effects.write, Some(DeviceWrite { route: route(1), change: DeviceChange::Lighting(wanted) }));
    assert_eq!(state.lighting(usual), wanted);
    assert_eq!(state.lighting_for("b"), None);
}

#[test]
fn settings_are_saved_only_when_they_change() {
    let mut state = state(vec![]);
    assert_eq!(state.set_launch_at_login(false), Persist::Nothing);
    assert_eq!(state.set_launch_at_login(true), Persist::SaveThenReload);
    assert!(state.app_settings().launch_at_login);
    assert_eq!(state.set_show_in_menu_bar(false), Persist::SaveThenReload);
    assert_eq!(state.set_check_for_updates(true), Persist::Save);
    assert_eq!(state.set_auto_install_updates(true), Persist::Save);
    assert_eq!(state.set_appearance(Appearance::Dark), Persist::Save);
    assert_eq!(state.set_appearance(Appearance::Dark), Persist::Nothing);
    assert_eq!(state.set_theme(true, Some("Night".to_string())), Persist::Save);
    assert_eq!(state.set_theme(true, Some("Night".to_string())), Persist::Nothing);
    assert_eq!(state.set_theme(false, None), Persist::Nothing);
    assert_eq!(state.set_theme(false, Some("Day".to_string())), Persist::Save);
    assert_eq!(state.app_settings().theme_light.as_deref(), Some("Day"));
    assert_eq!(state.set_ui_radius(Some(4)), Persist::Save);
    assert_eq!(state.set_ui_radius(Some(4)), Persist::Nothing);
    assert_eq!(state.set_auto_download_assets(true), Persist::Nothing);
    assert_eq!(state.set_asset_source(AssetSource { number: 1 }), Persist::Save);
    assert_eq!(state.set_language(Some("de".to_string())), Persist::Save);
    assert_eq!(state.set_language(Some("de".to_string())), Persist::Nothing);
    assert_eq!(state.language().as_deref(), Some("de"));
    assert_eq!(state.record_update_consent(false), Persist::Save);
    assert!(state.app_settings().update_prompt_seen && !state.app_settings().check_for_updates);
}

#[test]
fn the_agent_loads_only_what_was_saved() {
    assert!(reload_after_save(Persist::SaveThenReload, true));
    assert!(!reload_after_save(Persist::SaveThenReload, false));
    assert!(!reload_after_save(Persist::Save, true));
}

#[test]
fn committing_the_common_sensitivity_clears_the_own_one() {
    let mut state = state(vec![record("a", 1)]);
    assert_eq!(state.set_device_thumbwheel_sensitivity("a", 14), Persist::Nothing);
    assert_eq!(state.set_device_thumbwheel_sensitivity("a", 500), Persist::SaveThenReload);
    assert_eq!(state.device_thumbwheel_sensitivity("a"), 100);
    assert_eq!(state.set_device_thumbwheel_sensitivity("a", 14), Persist::SaveThenReload);
    assert_eq!(state.config.device_sensitivity("a"), None);
    assert_eq!(state.set_thumbwheel_sensitivity(-3), Persist::SaveThenReload);
    assert_eq!(state.device_thumbwheel_sensitivity("a"), 1);
    assert_eq!(state.set_thumbwheel_sensitivity(0), Persist::Nothing);
}

#[test]
fn managing_a_device_is_stored_once() {
    let mut state = state(vec![record("a", 1)]);
    assert!(state.device_enabled("a"));
    assert_eq!(state.set_device_enabled("a", true), Persist::Nothing);
    assert_eq!(state.set_device_enabled("a", false), Persist::SaveThenReload);
    assert!(!state.device_enabled("a"));
}

#[test]
fn bindings_are_shown_and_stored_under_the_device() {
    let mut state = state(vec![record("a", 1)]);
    let effects = state.commit_binding(ButtonId::Back, Action::VolumeUp);
    let edit = |change| Some(BindingEdit { key: "a".to_string(), change });
    assert_eq!(
        effects,
        Effects { edit: edit(BindingChange::Single(ButtonId::Back, Action::VolumeUp)), ..reload() }
    );
    assert_eq!(state.button_bindings.get(&ButtonId::Back), Some(&Action::VolumeUp));
    assert_eq!(
        state.commit_gesture_owner(Some(ButtonId::Forward)),
        Effects { edit: edit(BindingChange::Owner(Some(ButtonId::Forward))), project: true, ..reload() }
    );
    let up = GestureDirection::Up;
    assert_eq!(state.commit_gesture_binding(up, Action::VolumeUp, None), Effects::none());
    assert_eq!(state.gesture_bindings.len(), 0);
    let effects = state.commit_gesture_binding(up, Action::VolumeUp, Some(ButtonId::Forward));
    assert_eq!(
        effects.edit,
        edit(BindingChange::Direction(ButtonId::Forward, up, Action::VolumeUp))
    );
    assert_eq!(state.gesture_bindings.get(&up), Some(&Action::VolumeUp));
    assert_eq!(
        state.gesture_bindings_for_current(Some(ButtonId::GestureButton)),
        GestureSource::Seeded
    );
    assert_eq!(
        state.gesture_bindings_for_current(Some(ButtonId::Back)),
        GestureSource::Stored(ButtonId::Back)
    );
    assert_eq!(state.gesture_bindings_for_current(None), GestureSource::Nothing);
    assert_eq!(
        state.bindings_for_current(),
        HookProjection { key: Some("a".to_string()), app: None }
    );
    state.store_projection(Table::new(), Table::new());
    assert_eq!(state.button_bindings.len(), 0);
}

#[test]
fn the_link_reports_only_changes() {
    let mut state = state(vec![]);
    let status = AgentStatus {
        accessibility_granted: true,
        launch_at_login: false,
        inventory: InventoryHealth::Ready,
    };
    assert!(state.set_agent_link(AgentLink::Ready(status)));
    assert!(!state.set_agent_link(AgentLink::Ready(status)));
    assert_eq!(state.agent_status(), Some(&status));
    assert!(state.set_agent_link(AgentLink::Unreachable));
    assert!(state.agent_status().is_none());
    state.store_inventory_snapshot(vec![]);
    assert!(state.last_inventory().is_empty());
}

#[test]
fn the_monitor_keeps_the_latest_events() {
    let mut state = state(vec![]);
    let events = |from: u32, to: u32| (from..to).map(|n| MonitorEvent { text: n.to_string() }).collect();
    state.push_monitor_events(events(0, 150));
    assert_eq!(state.monitor_events().len(), 150);
    state.push_monitor_events(events(150, 260));
    let kept = state.monitor_events();
    assert_eq!(kept.len(), MONITOR_EVENTS_MAX);
    assert_eq!((kept[0].text.as_str(), kept[199].text.as_str()), ("60", "259"));
}

#[test]
fn the_event_taps_are_those_found_last() {
    let mut state = state(vec![]);
    assert!(state.event_taps().is_empty());
    state.set_event_taps(vec![EventTapInfo { text: "one".to_string() }]);
    state.set_event_taps(vec![EventTapInfo { text: "two".to_string() }]);
    assert_eq!(state.event_taps(), &vec![EventTapInfo { text: "two".to_string() }]);
}

#[test]
fn a_copy_means_the_same() {
    let one = record("a", 1);
    let two = one.copy();
    assert!(one.same(&two));
    assert_eq!(one, two);
    assert!(!one.same(&record("b", 1)));
}

#[test]
fn a_device_seen_in_between_gets_the_whole_grace_again() {
    let mut state = state(vec![record("a", 1), record("b", 2)]);
    for _ in 0..INVENTORY_MISS_GRACE {
        state.refresh_inventories(&vec![record("a", 1)], false);
    }
    state.refresh_inventories(&vec![record("b", 2), record("b", 2)], false);
    assert_eq!(keys(&state), vec!["a", "b"], "no device is shown twice");
    for _ in 0..INVENTORY_MISS_GRACE {
        state.refresh_inventories(&vec![record("a", 1)], false);
        assert_eq!(keys(&state), vec!["a", "b"]);
    }
    state.refresh_inventories(&vec![record("a", 1)], false);
    assert_eq!(keys(&state), vec!["a"]);
    state.refresh_inventories(&vec![record("a", 1)], false);
    assert_eq!(keys(&state), vec!["a"]);
}

#[test]
fn a_new_state_counts_no_failed_reads() {
    let state = state(vec![record("a", 1)]);
    assert_eq!(state.dpi_data.attempts.len(), 0);
    assert_eq!(state.smartshift_data.attempts.len(), 0);
}
