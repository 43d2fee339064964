use pinger::db::{TargetIterObject, TargetState};

fn sample_target() -> TargetIterObject {
    TargetIterObject {
        target_id: 0x0123456789abcdef0123456789abcdefu128,
        target_enabled: true,
        target_name: String::from("edge gateway"),
        target_address: String::from("https://example.net/health"),
        target_ping_type: String::from("HTTP"),
        target_interval: 5,
        target_state: TargetState::Unknown,
        target_metadata: String::from("{\"m\":\"GET\",\"mx\":299,\"mi\":200,\"i\":false}"),
    }
}

#[test]
fn identical_targets_have_identical_fingerprints() {
    let a = sample_target();
    let b = sample_target();
    assert_eq!(a.hash(), b.hash());
}

#[test]
fn fingerprint_is_stable_across_calls() {
    let t = sample_target();
    assert_eq!(t.hash(), t.hash());
}

#[test]
fn changing_id_changes_fingerprint() {
    let a = sample_target();
    let mut b = sample_target();
    b.target_id = a.target_id + 1;
    assert_ne!(a.hash(), b.hash());
}

#[test]
fn changing_state_changes_fingerprint() {
    let a = sample_target();
    let mut b = sample_target();
    b.target_state = TargetState::Up;
    assert_ne!(a.hash(), b.hash());
}

#[test]
fn changing_name_changes_fingerprint() {
    let a = sample_target();
    let mut b = sample_target();
    b.target_name = String::from("edge gateway 2");
    assert_ne!(a.hash(), b.hash());
}

#[test]
fn changing_address_changes_fingerprint() {
    let a = sample_target();
    let mut b = sample_target();
    b.target_address = String::from("https://example.net/live");
    assert_ne!(a.hash(), b.hash());
}

#[test]
fn changing_ping_type_changes_fingerprint() {
    let a = sample_target();
    let mut b = sample_target();
    b.target_ping_type = String::from("ICMP");
    assert_ne!(a.hash(), b.hash());
}

#[test]
fn changing_interval_changes_fingerprint() {
    let a = sample_target();
    let mut b = sample_target();
    b.target_interval = 6;
    assert_ne!(a.hash(), b.hash());
}

#[test]
fn changing_metadata_changes_fingerprint() {
    let a = sample_target();
    let mut b = sample_target();
    b.target_metadata = String::from("{\"m\":\"HEAD\",\"mx\":299,\"mi\":200,\"i\":false}");
    assert_ne!(a.hash(), b.hash());
}

#[test]
fn enabled_flag_does_not_affect_fingerprint() {
    let a = sample_target();
    let mut b = sample_target();
    b.target_enabled = false;
    assert_eq!(a.hash(), b.hash());
}
