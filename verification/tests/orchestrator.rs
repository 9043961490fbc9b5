use openlogi::config::{
    AppSettings, Appearance, AssetSource, Config, Lighting, ScrollResolution, SmartShift, SmartShiftMode,
};
use openlogi::device::{
    Capabilities, DeviceKind, DeviceModelInfo, DeviceRoute, DeviceTransports, PairedDevice, ReceiverInfo,
};
use openlogi::dpi::{DpiCapabilities, DpiCycles};
use openlogi::orchestrator::{
    build_devices, configured_wheel_mode, pick_current, plan_reapply, reapply_targets, AgentDevice, DeviceChange,
    DeviceWrite, HookMapsPlan, HookProjection, InventoryHealth, Orchestrator, SeenDevice, SeenReceiver,
};

fn app_settings() -> AppSettings {
    AppSettings {
        launch_at_login: false,
        show_in_menu_bar: true,
        check_for_updates: false,
        auto_install_updates: false,
        update_prompt_seen: false,
        appearance: Appearance::System,
        theme_light: None,
        theme_dark: None,
        ui_radius: None,
        thumbwheel_sensitivity: 14,
        auto_download_assets: true,
        asset_source: AssetSource { number: 0 },
        language: None,
    }
}

fn config() -> Config {
    Config::new(1, app_settings())
}

fn capabilities(hires_wheel: bool, scroll_inversion: bool) -> Capabilities {
    Capabilities { hires_wheel, scroll_inversion, panels: 0 }
}

fn route(slot: u8) -> DeviceRoute {
    DeviceRoute::Bolt { receiver_uid: "AA00".to_string(), slot }
}

fn dev(key: &str, slot: u8, online: bool) -> AgentDevice {
    AgentDevice {
        config_key: key.to_string(),
        model_key: key.to_string(),
        stable_id: format!("bolt-AA00-{slot}"),
        route: Some(route(slot)),
        capabilities: None,
        online,
    }
}

fn model() -> DeviceModelInfo {
    DeviceModelInfo {
        entity_count: 1,
        serial_number: None,
        unit_id: [0; 4],
        transports: DeviceTransports { usb: false, equad: false, btle: true, bluetooth: false },
        model_ids: [0xb034, 0, 0],
        extended_model_id: 0,
    }
}

fn seen(key: &str, slot: u8, online: bool, known: bool) -> SeenDevice {
    SeenDevice {
        device: PairedDevice {
            slot,
            codename: None,
            wpid: None,
            kind: DeviceKind::Mouse,
            online,
            battery: None,
            model_info: if known { Some(model()) } else { None },
            capabilities: None,
        },
        route: Some(route(slot)),
        stable_id: format!("bolt-AA00-{slot}"),
        config_key: key.to_string(),
        model_key: key.to_string(),
    }
}

fn snapshot(devices: Vec<SeenDevice>) -> Vec<SeenReceiver> {
    vec![SeenReceiver {
        receiver: ReceiverInfo {
            name: "Bolt".to_string(),
            vendor_id: 0x046d,
            product_id: 0xc548,
            unique_id: Some("AA00".to_string()),
        },
        devices,
    }]
}

#[test]
fn configured_wheel_mode_gates_resolution_and_inversion_independently() {
    let mut config = config();
    config.set_scroll_resolution("a", Some(ScrollResolution::Low));
    config.set_invert_scroll("a", true);
    let mut device = dev("a", 1, true);

    device.capabilities = Some(capabilities(true, false));
    assert_eq!(configured_wheel_mode(&config, &device), (Some(ScrollResolution::Low), None));

    device.capabilities = Some(capabilities(false, true));
    assert_eq!(configured_wheel_mode(&config, &device), (None, Some(true)));

    device.capabilities = None;
    assert_eq!(configured_wheel_mode(&config, &device), (None, None));
}

#[test]
fn configured_wheel_mode_leaves_unset_resolution_unmanaged() {
    let config = config();
    let mut device = dev("a", 1, true);
    device.capabilities = Some(capabilities(true, false));

    assert_eq!(configured_wheel_mode(&config, &device), (None, None));
}

#[test]
fn reapply_targets_new_arrivals_and_transitions() {
    assert_eq!(reapply_targets(&vec![], &vec![dev("a", 1, true)], false), vec![0]);
    assert!(reapply_targets(&vec![dev("a", 1, true)], &vec![dev("a", 1, true)], false).is_empty());
    assert_eq!(reapply_targets(&vec![dev("a", 1, true)], &vec![dev("a", 2, true)], false), vec![0]);
    assert_eq!(reapply_targets(&vec![dev("a", 1, false)], &vec![dev("a", 1, true)], false), vec![0]);
    assert!(reapply_targets(&vec![dev("a", 1, true)], &vec![dev("a", 1, false)], false).is_empty());
}

#[test]
fn reapply_targets_disambiguates_same_model_duplicates() {
    let prev = vec![dev("dup", 1, true), dev("dup", 2, true)];
    let next = vec![dev("dup", 1, true), dev("dup", 2, true)];
    assert!(reapply_targets(&prev, &next, false).is_empty());
}

#[test]
fn reapply_targets_skip_offline_and_routeless_devices() {
    assert!(reapply_targets(&vec![], &vec![dev("a", 1, false)], false).is_empty());
    let routeless = AgentDevice { route: None, ..dev("b", 2, true) };
    assert!(reapply_targets(&vec![], &vec![routeless], false).is_empty());
}

#[test]
fn reapply_all_targets_every_online_device() {
    let prev = vec![dev("a", 1, true), dev("b", 2, false)];
    let next = vec![dev("a", 1, true), dev("b", 2, false)];
    assert_eq!(reapply_targets(&prev, &next, true), vec![0]);
}

#[test]
fn plan_reapply_confirms_a_first_sighting_once() {
    let (targets, followup) = plan_reapply(&vec![], &vec![dev("a", 1, true)], &vec![], false);
    assert_eq!(targets, vec![0]);
    assert_eq!(followup, vec!["a".to_string()]);
    let prev = vec![dev("a", 1, true)];
    let (targets, followup) = plan_reapply(&prev, &prev, &followup, false);
    assert_eq!(targets, vec![0]);
    assert!(followup.is_empty());
    let (targets, _) = plan_reapply(&prev, &prev, &followup, false);
    assert!(targets.is_empty());
}

#[test]
fn plan_reapply_transitions_are_not_queued_for_confirmation() {
    let (targets, followup) = plan_reapply(&vec![dev("a", 1, false)], &vec![dev("a", 1, true)], &vec![], false);
    assert_eq!(targets, vec![0]);
    assert!(followup.is_empty());
}

#[test]
fn plan_reapply_skips_a_followup_that_went_offline() {
    let prev = vec![dev("a", 1, true)];
    let (targets, followup) = plan_reapply(&prev, &vec![dev("a", 1, false)], &vec!["a".to_string()], false);
    assert!(targets.is_empty());
    assert!(followup.is_empty());
}

#[test]
fn empty_refresh_marks_inventory_ready() {
    let mut cycles = DpiCycles::new();
    let (mut orch, _) = Orchestrator::new(config(), &mut cycles);
    assert_eq!(orch.inventory_health(), InventoryHealth::Scanning);
    orch.refresh_inventory(&vec![], &mut cycles);
    assert_eq!(orch.inventory_health(), InventoryHealth::Ready);
}

#[test]
fn unavailable_only_downgrades_a_pending_inventory() {
    let mut cycles = DpiCycles::new();
    let (mut orch, _) = Orchestrator::new(config(), &mut cycles);
    orch.mark_inventory_unavailable();
    assert_eq!(orch.inventory_health(), InventoryHealth::Unavailable);
    orch.refresh_inventory(&vec![], &mut cycles);
    assert_eq!(orch.inventory_health(), InventoryHealth::Ready);
    orch.mark_inventory_unavailable();
    assert_eq!(orch.inventory_health(), InventoryHealth::Ready);
}

#[test]
fn devices_without_a_model_are_left_out_and_the_rest_is_ordered() {
    let seen_all = snapshot(vec![seen("c", 3, true, true), seen("x", 2, true, false), seen("a", 1, true, true)]);
    let devices = build_devices(&seen_all);
    assert_eq!(devices, vec![dev("a", 1, true), dev("c", 3, true)]);
}

#[test]
fn enumeration_order_does_not_change_the_list() {
    let one = build_devices(&snapshot(vec![seen("a", 1, true, true), seen("b", 2, false, true)]));
    let other = build_devices(&snapshot(vec![seen("b", 2, false, true), seen("a", 1, true, true)]));
    assert_eq!(one, other);
}

#[test]
fn saved_selection_is_found_else_the_first_device() {
    let devices = vec![dev("a", 1, true), dev("b", 2, true)];
    assert_eq!(pick_current(&devices, &Some("b".to_string())), 1);
    assert_eq!(pick_current(&devices, &Some("gone".to_string())), 0);
    assert_eq!(pick_current(&devices, &None), 0);
}

#[test]
fn a_new_device_gets_its_volatile_settings_in_order() {
    let mut config = config();
    config.set_dpi("a", 1200);
    config.set_lighting("a", Lighting { enabled: true, color: 0xff8800, brightness: 80 });
    let smartshift = SmartShift { mode: SmartShiftMode::Ratchet, auto_disengage: 20, tunable_torque: 3 };
    config.set_smartshift("a", smartshift);
    config.set_invert_scroll("a", true);
    let mut cycles = DpiCycles::new();
    let (mut orch, _) = Orchestrator::new(config, &mut cycles);
    let mut device = seen("a", 1, true, true);
    device.device.capabilities = Some(capabilities(false, true));
    let outcome = orch.refresh_inventory(&snapshot(vec![device]), &mut cycles);
    let write = |change: DeviceChange| DeviceWrite { route: route(1), change };
    assert_eq!(
        outcome.writes,
        vec![
            write(DeviceChange::WheelMode { resolution: None, inverted: Some(true) }),
            write(DeviceChange::Lighting(Lighting { enabled: true, color: 0xff8800, brightness: 80 })),
            write(DeviceChange::Dpi(1200)),
            write(DeviceChange::SmartShift(smartshift)),
        ]
    );
}

#[test]
fn lighting_that_is_off_is_not_written() {
    let mut config = config();
    config.set_lighting("a", Lighting { enabled: false, color: 1, brightness: 1 });
    let mut cycles = DpiCycles::new();
    let (orch, _) = Orchestrator::new(config, &mut cycles);
    assert!(orch.reapply_volatile_settings(&dev("a", 1, true)).is_empty());
}

#[test]
fn an_unmanaged_device_is_left_alone() {
    let mut config = config();
    config.set_dpi("a", 800);
    config.set_dpi_presets("a", vec![400, 800]);
    config.set_device_enabled("a", false);
    let mut cycles = DpiCycles::new();
    let (mut orch, _) = Orchestrator::new(config, &mut cycles);
    let outcome = orch.refresh_inventory(&snapshot(vec![seen("a", 1, true, true)]), &mut cycles);
    assert!(outcome.writes.is_empty());
    assert!(outcome.publication.capture.is_empty());
    assert_eq!(outcome.publication.hook_maps, Some(HookMapsPlan::Empty));
    assert!(cycles.state_for(Some("a")).is_none());
}

#[test]
fn rebuild_keeps_the_dpi_index_while_presets_stay() {
    let mut config_a = config();
    config_a.set_dpi_presets("a", vec![400, 800, 1600]);
    let mut cycles = DpiCycles::new();
    let (mut orch, _) = Orchestrator::new(config_a, &mut cycles);
    orch.refresh_inventory(&snapshot(vec![seen("a", 1, true, true)]), &mut cycles);
    let state = cycles.state_for(None).expect("the first device is selected");
    assert_eq!(state.cycle(), Some((800, Some(route(1)))));
    state.capabilities = Some(DpiCapabilities { values: vec![400, 1600] });

    let mut same = config();
    same.set_dpi_presets("a", vec![400, 800, 1600]);
    orch.reload_config(same, &mut cycles);
    let state = cycles.state_for(Some("a")).expect("still online");
    assert_eq!(state.index, 1);
    assert!(state.capabilities.is_some());

    let mut other = config();
    other.set_dpi_presets("a", vec![500, 900]);
    orch.reload_config(other, &mut cycles);
    let state = cycles.state_for(Some("a")).expect("still online");
    assert_eq!(state.index, 0);
    assert!(state.capabilities.is_none());
}

#[test]
fn a_wake_writes_to_every_online_device_once() {
    let mut config = config();
    config.set_dpi("a", 1000);
    let mut cycles = DpiCycles::new();
    let (mut orch, _) = Orchestrator::new(config, &mut cycles);
    let all = snapshot(vec![seen("a", 1, true, true), seen("b", 2, false, true)]);
    orch.refresh_inventory(&all, &mut cycles);
    orch.refresh_inventory(&all, &mut cycles);
    assert!(orch.refresh_inventory(&all, &mut cycles).writes.is_empty());
    orch.reapply_volatile_on_next_refresh();
    assert_eq!(orch.refresh_inventory(&all, &mut cycles).writes.len(), 1);
    assert!(orch.refresh_inventory(&all, &mut cycles).writes.is_empty());
}

#[test]
fn an_unchanged_set_publishes_only_what_follows_from_it() {
    let mut cycles = DpiCycles::new();
    let (mut orch, _) = Orchestrator::new(config(), &mut cycles);
    let first = orch.refresh_inventory(&snapshot(vec![seen("a", 1, false, true)]), &mut cycles);
    assert!(first.publication.hook_maps.is_some());
    assert_eq!(first.publication.gestures, Some(Some("a".to_string())));
    assert!(first.publication.capture.is_empty());
    let second = orch.refresh_inventory(&snapshot(vec![seen("a", 1, true, true)]), &mut cycles);
    assert!(second.publication.hook_maps.is_none());
    assert!(second.publication.gestures.is_none());
    assert_eq!(second.publication.capture.len(), 1);
    assert!(cycles.state_for(Some("a")).is_some());
}

#[test]
fn the_application_in_front_only_changes_the_hook_maps() {
    let mut cycles = DpiCycles::new();
    let (mut orch, _) = Orchestrator::new(config(), &mut cycles);
    assert_eq!(
        orch.set_current_app(Some("com.example".to_string())),
        Some(HookMapsPlan::Project(HookProjection { key: None, app: Some("com.example".to_string()) }))
    );
    assert_eq!(orch.set_current_app(Some("com.example".to_string())), None);
}

#[test]
fn reload_writes_the_wheel_modes_of_online_devices() {
    let mut cycles = DpiCycles::new();
    let (mut orch, _) = Orchestrator::new(config(), &mut cycles);
    let mut device = seen("a", 1, true, true);
    device.device.capabilities = Some(capabilities(true, false));
    orch.refresh_inventory(&snapshot(vec![device]), &mut cycles);
    let mut changed = config();
    changed.set_scroll_resolution("a", Some(ScrollResolution::High));
    let outcome = orch.reload_config(changed, &mut cycles);
    assert_eq!(
        outcome.writes,
        vec![DeviceWrite {
            route: route(1),
            change: DeviceChange::WheelMode { resolution: Some(ScrollResolution::High), inverted: None },
        }]
    );
    assert!(!orch.launch_at_login());
    assert_eq!(orch.inventory().len(), 1);
}
