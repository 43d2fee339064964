use pinger::db::{TargetIterObject, TargetState};
use pinger::dispatch::{Registry, SyncAction};

fn target(id: u128, enabled: bool, interval: u32) -> TargetIterObject {
    TargetIterObject {
        target_id: id,
        target_enabled: enabled,
        target_name: format!("target {id}"),
        target_address: format!("https://example.net/{id}"),
        target_ping_type: String::from("HTTP"),
        target_interval: interval,
        target_state: TargetState::Unknown,
        target_metadata: String::from("{\"m\":\"GET\",\"mx\":299,\"mi\":200,\"i\":false}"),
    }
}

#[test]
fn new_enabled_target_spawns_exactly_one_worker() {
    let mut registry = Registry::new();
    registry.begin_sync();
    assert_eq!(registry.observe_target(&target(1, true, 5)), SyncAction::Spawned);
    assert_eq!(registry.len(), 1);
    let removed = registry.sweep(true);
    assert!(removed.is_empty());
    assert_eq!(registry.len(), 1);
}

#[test]
fn disabled_target_is_skipped_and_never_registered() {
    let mut registry = Registry::new();
    registry.begin_sync();
    assert_eq!(registry.observe_target(&target(1, false, 5)), SyncAction::Skipped);
    assert_eq!(registry.len(), 0);
}

#[test]
fn unchanged_cycle_is_idempotent() {
    let snapshot = vec![target(1, true, 5), target(2, true, 7)];
    let mut registry = Registry::new();

    registry.begin_sync();
    for t in &snapshot {
        assert_eq!(registry.observe_target(t), SyncAction::Spawned);
    }
    assert!(registry.sweep(true).is_empty());

    // The same snapshot again: nothing spawned, updated or cancelled.
    registry.begin_sync();
    for t in &snapshot {
        assert_eq!(registry.observe_target(t), SyncAction::Refreshed);
    }
    assert!(registry.sweep(true).is_empty());
    assert_eq!(registry.len(), 2);
}

#[test]
fn changed_target_yields_update_not_respawn() {
    let mut registry = Registry::new();
    registry.begin_sync();
    assert_eq!(registry.observe_target(&target(1, true, 5)), SyncAction::Spawned);
    assert!(registry.sweep(true).is_empty());

    registry.begin_sync();
    let changed = target(1, true, 9);
    assert_eq!(registry.observe_target(&changed), SyncAction::Updated);
    // The update reached the worker: commit it, the entry stays live.
    registry.record_update(&changed);
    assert!(registry.sweep(true).is_empty());
    assert_eq!(registry.len(), 1);

    // The committed fingerprint is the changed target's.
    registry.begin_sync();
    assert_eq!(registry.observe_target(&changed), SyncAction::Refreshed);
    assert!(registry.sweep(true).is_empty());
}

#[test]
fn undelivered_update_leaves_the_entry_for_the_sweep() {
    let mut registry = Registry::new();
    registry.begin_sync();
    assert_eq!(registry.observe_target(&target(1, true, 5)), SyncAction::Spawned);
    assert!(registry.sweep(true).is_empty());

    // The worker already exited, so the update never arrives and is not
    // committed: the sweep tears the entry down and the target is spawned
    // afresh when next enumerated.
    registry.begin_sync();
    assert_eq!(registry.observe_target(&target(1, true, 9)), SyncAction::Updated);
    assert_eq!(registry.sweep(true), vec![1u128]);

    registry.begin_sync();
    assert_eq!(registry.observe_target(&target(1, true, 9)), SyncAction::Spawned);
    assert!(registry.sweep(true).is_empty());
}

#[test]
fn removed_target_is_cancelled_on_the_next_cycle_sweep() {
    let mut registry = Registry::new();
    registry.begin_sync();
    registry.observe_target(&target(1, true, 5));
    registry.observe_target(&target(2, true, 5));
    assert!(registry.sweep(true).is_empty());

    // Target 2 vanished from the enumeration.
    registry.begin_sync();
    assert_eq!(registry.observe_target(&target(1, true, 5)), SyncAction::Refreshed);
    let removed = registry.sweep(true);
    assert_eq!(removed, vec![2u128]);
    assert_eq!(registry.len(), 1);
}

#[test]
fn disabled_target_is_cancelled_on_the_next_cycle_sweep() {
    let mut registry = Registry::new();
    registry.begin_sync();
    registry.observe_target(&target(7, true, 5));
    assert!(registry.sweep(true).is_empty());

    // The same target comes back disabled: skipped, then swept.
    registry.begin_sync();
    assert_eq!(registry.observe_target(&target(7, false, 5)), SyncAction::Skipped);
    let removed = registry.sweep(true);
    assert_eq!(removed, vec![7u128]);
    assert_eq!(registry.len(), 0);
}

#[test]
fn failed_enumeration_cancels_no_worker() {
    let mut registry = Registry::new();
    registry.begin_sync();
    registry.observe_target(&target(1, true, 5));
    registry.observe_target(&target(2, true, 5));
    assert!(registry.sweep(true).is_empty());

    // The next enumeration breaks off after the first row: the registry is
    // left untouched and both workers keep polling.
    registry.begin_sync();
    registry.observe_target(&target(1, true, 5));
    assert!(registry.sweep(false).is_empty());
    assert_eq!(registry.len(), 2);

    // A later complete cycle reconciles as usual.
    registry.begin_sync();
    assert_eq!(registry.observe_target(&target(1, true, 5)), SyncAction::Refreshed);
    assert_eq!(registry.observe_target(&target(2, true, 5)), SyncAction::Refreshed);
    assert!(registry.sweep(true).is_empty());
}
