use openlogi::cache::{
    backfill_identity, is_stale, load, save, CacheKey, CacheOutcome, Cached, SavedCache, CACHE_MISS_GRACE,
    CACHE_SCHEMA, REFRESH_TICKS,
};
use openlogi::device::{
    BatteryInfo, Capabilities, DeviceInventory, DeviceKind, DeviceModelInfo, DeviceTransports, PairedDevice,
    ReceiverInfo,
};
use openlogi::enumerate::{
    one_shot_should_stop, Enumerator, NodeStatus, OneShot, OpenResult, SettledNode, Settlement, ONESHOT_ATTEMPTS,
};
use openlogi::probe::{
    assemble_bolt_probe, battery_feature_index, parse_codename_unifying, NodeProbe, ProbeReply, ProbeSession,
    ProbeStep, ProbedFeatures,
};
use openlogi::table::Table;
use openlogi::value::Value;

use hidpp::feature::unified_battery::v0::UnifiedBatteryFeatureV0;
use hidpp::feature::CreatableFeature;

fn cache_entry(probed_tick: u64) -> Cached {
    Cached { probe: ProbedFeatures::new(), battery_index: None, probed_tick }
}

fn bolt(unit_id: [u8; 4]) -> CacheKey {
    CacheKey::Bolt { unit_id }
}

#[test]
fn battery_index_is_one_based_in_the_enumerated_table() {
    let table = vec![0x0001, UnifiedBatteryFeatureV0::ID, 0x2201];
    assert_eq!(battery_feature_index(&table), Some(2));
    assert_eq!(
        battery_feature_index(&vec![UnifiedBatteryFeatureV0::ID]),
        Some(1),
        "first entry maps to index 1, not 0"
    );
}

#[test]
fn no_battery_feature_means_no_index() {
    assert_eq!(battery_feature_index(&vec![0x0001, 0x2201, 0x1b04]), None);
    assert_eq!(battery_feature_index(&vec![]), None);
}

#[test]
fn a_battery_index_that_does_not_fit_is_none() {
    let mut ids = vec![0x0001; 254];
    ids.push(UnifiedBatteryFeatureV0::ID);
    assert_eq!(battery_feature_index(&ids), Some(255));
    ids.insert(0, 0x0003);
    assert_eq!(battery_feature_index(&ids), None);
}

#[test]
fn cache_entry_survives_grace_then_evicts() {
    let mut e = Enumerator::new();
    let key = bolt([1, 2, 3, 4]);
    e.cache.insert(key.copy(), cache_entry(0));
    let nobody = vec![];
    for _ in 0..CACHE_MISS_GRACE {
        e.evict_unseen(&nobody);
        assert!(e.cache.contains(&key), "evicted inside the grace window");
    }
    e.evict_unseen(&nobody);
    assert!(!e.cache.contains(&key), "should evict past the grace window");
}

#[test]
fn being_seen_resets_the_miss_counter() {
    let mut e = Enumerator::new();
    let key = bolt([9; 4]);
    e.cache.insert(key.copy(), cache_entry(0));
    let nobody = vec![];
    let seen = vec![key.copy()];
    e.evict_unseen(&nobody);
    e.evict_unseen(&seen);
    for _ in 0..CACHE_MISS_GRACE {
        e.evict_unseen(&nobody);
    }
    assert!(e.cache.contains(&key), "counter reset by a sighting, so still within grace");
}

#[test]
fn cached_probe_is_reused_until_refresh_ticks() {
    let cached = cache_entry(10);
    assert!(!is_stale(&cached, 10), "same tick is fresh");
    assert!(!is_stale(&cached, 10 + REFRESH_TICKS - 1), "just under the window is still fresh");
    assert!(is_stale(&cached, 10 + REFRESH_TICKS), "at the window the probe is refreshed");
}

#[test]
fn the_age_of_a_probe_survives_a_wrapped_count() {
    let cached = cache_entry(u64::MAX);
    assert!(!is_stale(&cached, REFRESH_TICKS - 2));
    assert!(is_stale(&cached, REFRESH_TICKS - 1));
}

fn inventory(slots: &[u8]) -> Vec<DeviceInventory> {
    vec![DeviceInventory {
        receiver: ReceiverInfo {
            name: "Unifying Receiver".to_string(),
            vendor_id: 0x046d,
            product_id: 0xc52b,
            unique_id: Some("receiver-1".to_string()),
        },
        paired: slots
            .iter()
            .copied()
            .map(|slot| PairedDevice {
                slot,
                codename: Some(format!("device-{slot}")),
                wpid: Some(0xb000 + u16::from(slot)),
                kind: DeviceKind::Mouse,
                online: true,
                battery: None,
                model_info: None,
                capabilities: None,
            })
            .collect(),
    }]
}

#[test]
fn one_shot_retry_stops_when_first_attempt_is_complete() {
    let current = inventory(&[1, 2]);
    assert!(
        one_shot_should_stop(None, &current, true, true, 1),
        "complete inventories keep the one-pass happy path"
    );
}

#[test]
fn one_shot_retry_waits_for_healthy_incomplete_inventory_to_stabilize() {
    let partial = inventory(&[1]);
    let full = inventory(&[1, 2]);
    assert!(
        !one_shot_should_stop(None, &partial, false, true, 1),
        "the first incomplete pass has no previous inventory to compare"
    );
    assert!(
        !one_shot_should_stop(Some(&partial), &full, false, true, 2),
        "a changed inventory should get another retry window"
    );
    assert!(
        one_shot_should_stop(Some(&full), &full, false, true, 3),
        "once the returned inventory stabilizes, retrying stops"
    );
}

#[test]
fn one_shot_retry_stops_on_unchanged_incomplete_inventory() {
    let partial = inventory(&[1]);
    assert!(
        one_shot_should_stop(Some(&partial), &partial, false, true, 2),
        "stable partial inventories should not burn every retry attempt"
    );
}

#[test]
fn one_shot_retry_keeps_unchanged_inventory_after_unhealthy_probe() {
    let partial = inventory(&[1]);
    assert!(
        !one_shot_should_stop(Some(&partial), &partial, false, false, 2),
        "unchanged replay after a failed probe must keep retrying before the cap"
    );
}

#[test]
fn one_shot_retry_stops_at_attempt_cap_when_inventory_keeps_changing() {
    let previous = inventory(&[1]);
    let current = inventory(&[1, 2]);
    assert!(
        one_shot_should_stop(Some(&previous), &current, false, false, ONESHOT_ATTEMPTS),
        "the retry loop must remain bounded even if the inventory changes every time"
    );
}

#[test]
fn a_single_enumeration_ends_at_its_last_attempt() {
    let mut one_shot = OneShot::new();
    for slot in 1..ONESHOT_ATTEMPTS {
        assert_eq!(one_shot.after_pass(inventory(&[slot]), false, false), None);
    }
    assert_eq!(one_shot.after_pass(inventory(&[9]), false, false), Some(inventory(&[9])));
}

#[test]
fn an_unanswered_pass_is_no_evidence_for_the_next() {
    let mut one_shot = OneShot::new();
    assert_eq!(one_shot.after_pass(inventory(&[1]), false, false), None);
    assert_eq!(one_shot.after_pass(inventory(&[1]), false, true), None);
    assert_eq!(one_shot.after_pass(inventory(&[1]), false, true), Some(inventory(&[1])));
}

fn bolt_receiver_info() -> ReceiverInfo {
    ReceiverInfo {
        name: "Logi Bolt Receiver".to_string(),
        vendor_id: 0x046d,
        product_id: 0xc548,
        unique_id: Some("bolt-1".to_string()),
    }
}

fn bolt_slot(slot: u8) -> (PairedDevice, CacheOutcome) {
    (
        PairedDevice {
            slot,
            codename: Some(format!("device-{slot}")),
            wpid: None,
            kind: DeviceKind::Mouse,
            online: true,
            battery: None,
            model_info: None,
            capabilities: None,
        },
        CacheOutcome::Seen(bolt([0, 0, 0, slot])),
    )
}

fn paired_slots(probe: &NodeProbe) -> Vec<u8> {
    let Some(inventory) = probe.inventory.as_ref() else {
        panic!("expected an inventory");
    };
    inventory.paired.iter().map(|d| d.slot).collect()
}

#[test]
fn bolt_probe_is_complete_when_count_matches_readable_slots() {
    let probe = assemble_bolt_probe(bolt_receiver_info(), Some(2), vec![bolt_slot(1), bolt_slot(2)]);
    assert!(probe.complete, "count matches the readable slots");
    assert!(probe.healthy, "a complete Bolt walk is authoritative");
    assert_eq!(paired_slots(&probe), vec![1, 2], "slots surface in order");
    assert_eq!(probe.outcomes.len(), 2, "one cache outcome per readable slot");
}

#[test]
fn bolt_probe_is_incomplete_when_a_counted_slot_is_unreadable() {
    let probe = assemble_bolt_probe(bolt_receiver_info(), Some(2), vec![bolt_slot(1)]);
    assert_eq!(paired_slots(&probe), vec![1], "only the readable slot surfaces");
    assert!(!probe.complete, "a count shortfall is not complete");
    assert!(!probe.healthy, "an incomplete Bolt walk is not authoritative");
}

#[test]
fn bolt_probe_is_incomplete_when_the_count_register_is_unanswered() {
    let probe = assemble_bolt_probe(bolt_receiver_info(), None, vec![bolt_slot(1), bolt_slot(2)]);
    assert_eq!(paired_slots(&probe), vec![1, 2]);
    assert!(!probe.complete, "no count register means we couldn't fully check");
    assert!(!probe.healthy);
}

fn model(unit_id: [u8; 4], serial: Option<&str>) -> DeviceModelInfo {
    DeviceModelInfo {
        entity_count: 1,
        serial_number: serial.map(str::to_string),
        unit_id,
        transports: DeviceTransports { usb: false, equad: false, btle: false, bluetooth: false },
        model_ids: [0xc09d, 0, 0],
        extended_model_id: 1,
    }
}

fn probed(model_info: Option<DeviceModelInfo>, identity_incomplete: bool) -> ProbedFeatures {
    ProbedFeatures {
        model_info,
        identity_incomplete,
        kind: Some(DeviceKind::Mouse),
        ..ProbedFeatures::new()
    }
}

#[test]
fn failed_device_info_read_backfills_from_cache() {
    let mut fresh = probed(None, true);
    let cached = probed(Some(model([0x46, 0, 0x2e, 0], None)), false);

    backfill_identity(&mut fresh, &cached);

    assert_eq!(fresh.model_info, cached.model_info);
    assert!(!fresh.identity_incomplete, "a backfilled identity is complete and may be cached");
}

#[test]
fn failed_serial_read_backfills_only_the_serial() {
    let mut fresh = probed(Some(model([1, 2, 3, 4], None)), true);
    let cached = probed(Some(model([9, 9, 9, 9], Some("abc123"))), false);

    backfill_identity(&mut fresh, &cached);

    let Some(info) = fresh.model_info else {
        panic!("model info kept");
    };
    assert_eq!(info.serial_number.as_deref(), Some("abc123"));
    assert_eq!(info.unit_id, [1, 2, 3, 4], "fresh unit id wins");
    assert!(!fresh.identity_incomplete);
}

#[test]
fn complete_probe_is_never_overwritten_by_cache() {
    let mut fresh = probed(Some(model([1, 2, 3, 4], None)), false);
    let cached = probed(Some(model([9, 9, 9, 9], Some("stale"))), false);

    backfill_identity(&mut fresh, &cached);

    let Some(info) = fresh.model_info else {
        panic!("model info kept");
    };
    assert_eq!(info.unit_id, [1, 2, 3, 4]);
    assert!(info.serial_number.is_none(), "no serial was read, none faked");
}

#[test]
fn incomplete_probe_without_cached_identity_stays_incomplete() {
    let mut fresh = probed(None, true);
    let cached = probed(None, false);

    backfill_identity(&mut fresh, &cached);

    assert!(
        fresh.identity_incomplete,
        "nothing to backfill from: the caller must not memoize this probe"
    );
}

#[test]
fn failed_kind_read_is_carried_forward() {
    let mut fresh = ProbedFeatures::new();
    let cached = probed(None, false);

    backfill_identity(&mut fresh, &cached);

    assert_eq!(fresh.kind, Some(DeviceKind::Mouse));
}

#[test]
fn filling_in_twice_changes_nothing_more() {
    let mut fresh = probed(Some(model([1, 2, 3, 4], None)), true);
    let cached = probed(Some(model([9, 9, 9, 9], Some("abc123"))), false);
    backfill_identity(&mut fresh, &cached);
    let once = fresh.copy();
    backfill_identity(&mut fresh, &cached);
    assert_eq!(fresh, once);
}

#[test]
fn codename_reads_len_prefixed_name() {
    let mut buf = vec![0x40, 0x0c];
    buf.extend_from_slice(b"MX Master 2S");
    buf.extend_from_slice(&[0u8; 2]);
    assert_eq!(parse_codename_unifying(&buf).as_deref(), Some("MX Master 2S"));
}

#[test]
fn codename_clamps_overlong_len() {
    let buf = [0x40, 0xff, b'h', b'i'];
    assert_eq!(parse_codename_unifying(&buf).as_deref(), Some("hi"));
}

#[test]
fn codename_rejects_short_response() {
    assert_eq!(parse_codename_unifying(&[0x40]), None);
}

#[test]
fn codename_that_is_no_text_is_none() {
    assert_eq!(parse_codename_unifying(&[0x40, 2, 0xc3, 0x28]), None);
    assert_eq!(parse_codename_unifying(&[0x40, 2, 0xc3, 0xa9]).as_deref(), Some("\u{e9}"));
    assert_eq!(parse_codename_unifying(&[0x40, 0]).as_deref(), Some(""));
}

#[test]
fn probe_cache_roundtrips_through_disk() {
    let model = DeviceModelInfo {
        entity_count: 1,
        serial_number: Some("TESTSERIAL01".to_string()),
        unit_id: [0xaa, 0xbb, 0xcc, 0xdd],
        transports: DeviceTransports { usb: false, equad: false, btle: false, bluetooth: false },
        model_ids: [0xb042, 0, 0],
        extended_model_id: 0,
    };
    let probe = ProbedFeatures { model_info: Some(model.copy()), ..ProbedFeatures::new() };
    let mut cache = Table::new();
    cache.insert(
        bolt([0xaa, 0xbb, 0xcc, 0xdd]),
        Cached { probe, battery_index: Some(9), probed_tick: 7 },
    );
    cache.insert(
        CacheKey::UnifyingSlot { receiver_uid: "DA2699E1".to_string(), slot: 2 },
        cache_entry(3),
    );
    cache.insert(CacheKey::Direct { node: 4 }, cache_entry(3));

    let loaded = load(save(&cache));

    let bolt = loaded
        .get(&bolt([0xaa, 0xbb, 0xcc, 0xdd]))
        .expect("bolt entry survives a save/load cycle");
    assert_eq!(bolt.probe.model_info.as_ref(), Some(&model));
    assert_eq!(bolt.battery_index, Some(9));
    assert_eq!(bolt.probed_tick, 0, "loaded entries restart the refresh clock");
    assert!(
        loaded.contains(&CacheKey::UnifyingSlot { receiver_uid: "DA2699E1".to_string(), slot: 2 }),
        "unifying entries persist too"
    );
    assert!(!loaded.contains(&CacheKey::Direct { node: 4 }), "a node id means nothing after a restart");
}

#[test]
fn a_cache_of_another_version_is_not_loaded() {
    let saved = SavedCache { schema: CACHE_SCHEMA + 1, entries: vec![(bolt([1; 4]), cache_entry(1))] };
    assert_eq!(load(saved).len(), 0);
}

fn settled(node: u64, healthy: bool, slots: &[u8], outcomes: Vec<CacheOutcome>, evict: bool) -> SettledNode {
    SettledNode {
        node,
        complete: healthy,
        healthy,
        outcomes,
        settled: Settlement { inventory: inventory(slots).pop(), evict_channel: evict },
    }
}

#[test]
fn a_pass_collects_inventories_and_tends_channels_and_cache() {
    let mut e = Enumerator::new();
    assert_eq!(e.begin_pass(), 1);
    assert!(!e.has_channel(7));
    assert_eq!(e.after_open(7, OpenResult::Hidpp), NodeStatus::Active);
    assert_eq!(e.after_open(8, OpenResult::Hidpp), NodeStatus::Active);
    assert_eq!(e.after_open(9, OpenResult::OtherHid), NodeStatus::Ignored);
    assert_eq!(e.after_open(10, OpenResult::Failed), NodeStatus::Failed);
    assert!(e.has_channel(7) && e.has_channel(8) && !e.has_channel(9));
    e.retain_channels(&vec![7, 8, 10]);
    let pass = e.settle_pass(
        vec![
            settled(7, true, &[1], vec![CacheOutcome::Fresh(bolt([1; 4]), cache_entry(1))], false),
            settled(8, false, &[2], vec![CacheOutcome::Unkeyed], true),
        ],
        vec![inventory(&[3]).pop(), None],
    );
    assert_eq!(pass.inventories.len(), 3);
    assert_eq!(pass.inventories[2].paired[0].slot, 3);
    assert!(!pass.all_complete && !pass.all_healthy);
    assert!(e.has_channel(7) && !e.has_channel(8));
    assert!(e.cache.contains(&bolt([1; 4])));
    e.retain_channels(&vec![]);
    assert!(!e.has_channel(7));
}

#[test]
fn a_pass_in_which_every_node_answers_is_complete() {
    let mut e = Enumerator::with_cache(Table::new());
    let pass = e.settle_pass(vec![settled(1, true, &[1], vec![], false)], vec![]);
    assert!(pass.all_complete && pass.all_healthy);
}

#[test]
fn a_full_probe_asks_everything_in_turn() {
    let mut probe = ProbeSession::new();
    assert_eq!(probe.step, ProbeStep::Open);
    probe.answer(ProbeReply::Opened(true));
    assert_eq!(probe.step, ProbeStep::Features);
    let can = Capabilities { hires_wheel: true, scroll_inversion: false, panels: 5 };
    probe.answer(ProbeReply::Table(vec![0x0001, UnifiedBatteryFeatureV0::ID], can));
    assert_eq!(probe.step, ProbeStep::Wheel);
    probe.answer(ProbeReply::Wheel(true));
    assert_eq!(probe.step, ProbeStep::Battery(2));
    let battery = BatteryInfo { percentage: 80, level: 4, status: 0 };
    probe.answer(ProbeReply::Battery(Some(battery)));
    assert_eq!(probe.step, ProbeStep::Info);
    probe.answer(ProbeReply::Info(model([1, 2, 3, 4], Some("ignored")), true));
    assert_eq!(probe.step, ProbeStep::Serial);
    probe.answer(ProbeReply::Serial(Some("S1".to_string())));
    assert_eq!(probe.step, ProbeStep::Kind);
    probe.answer(ProbeReply::Kind(Some(DeviceKind::Mouse)));
    assert_eq!(probe.step, ProbeStep::Done);
    assert_eq!(probe.battery_index, Some(2));
    assert_eq!(
        probe.features,
        ProbedFeatures {
            battery: Some(battery),
            model_info: Some(model([1, 2, 3, 4], Some("S1"))),
            kind: Some(DeviceKind::Mouse),
            capabilities: Some(Capabilities { scroll_inversion: true, ..can }),
            identity_incomplete: false,
        }
    );
}

#[test]
fn failed_identity_reads_are_noted() {
    let mut probe = ProbeSession::new();
    probe.answer(ProbeReply::Opened(true));
    probe.answer(ProbeReply::NoTable);
    assert_eq!(probe.step, ProbeStep::Info);
    probe.answer(ProbeReply::Info(model([1, 2, 3, 4], None), true));
    probe.answer(ProbeReply::SerialFailed);
    assert!(probe.features.identity_incomplete);
    assert!(probe.features.model_info.is_some());

    let mut other = ProbeSession::new();
    other.answer(ProbeReply::Opened(true));
    let can = Capabilities { hires_wheel: true, scroll_inversion: true, panels: 0 };
    other.answer(ProbeReply::Table(vec![], can));
    other.answer(ProbeReply::WheelFailed);
    assert_eq!(other.features.capabilities, Some(Capabilities { scroll_inversion: false, ..can }));
    assert_eq!(other.step, ProbeStep::Info);
    other.answer(ProbeReply::InfoFailed);
    assert!(other.features.identity_incomplete);
}

#[test]
fn a_device_that_does_not_open_tells_nothing() {
    let mut probe = ProbeSession::new();
    probe.answer(ProbeReply::Opened(false));
    assert_eq!(probe.step, ProbeStep::Done);
    assert_eq!(probe.features, ProbedFeatures::new());
    assert_eq!(NodeProbe::failed().outcomes.len(), 0);
}

#[test]
fn a_missing_device_is_dropped_though_others_are_seen() {
    let mut e = Enumerator::new();
    let (gone, there) = (bolt([1; 4]), bolt([2; 4]));
    e.cache.insert(gone.copy(), cache_entry(0));
    e.cache.insert(there.copy(), cache_entry(0));
    let seen = vec![there.copy()];
    for _ in 0..CACHE_MISS_GRACE {
        e.evict_unseen(&seen);
        assert!(e.cache.contains(&gone));
    }
    e.evict_unseen(&seen);
    assert!(!e.cache.contains(&gone));
    e.evict_unseen(&seen);
    assert!(!e.cache.contains(&gone));
    assert!(e.cache.contains(&there));
}
