use agent_kit::files::{bundle_read, BundleRead, FileFleet, FileRegistry, MAX_FLEET_BUNDLE_BYTES};

#[test]
fn file_stores_keep_their_path() {
    let r = FileRegistry::new("cfg/model_router.textproto".to_string());
    assert_eq!(r.path(), "cfg/model_router.textproto");
    let f = FileFleet::new("state/fleet.json".to_string());
    assert_eq!(f.path(), "state/fleet.json");
}

#[test]
fn bundle_read_absent_is_empty_store() {
    assert_eq!(bundle_read(false, 0, MAX_FLEET_BUNDLE_BYTES), BundleRead::Empty);
    assert_eq!(bundle_read(false, usize::MAX, MAX_FLEET_BUNDLE_BYTES), BundleRead::Empty);
}

#[test]
fn bundle_read_oversized_refused_before_parse() {
    assert_eq!(bundle_read(true, MAX_FLEET_BUNDLE_BYTES, MAX_FLEET_BUNDLE_BYTES), BundleRead::Parse);
    assert_eq!(bundle_read(true, MAX_FLEET_BUNDLE_BYTES + 1, MAX_FLEET_BUNDLE_BYTES), BundleRead::TooLarge);
    assert_eq!(bundle_read(true, 0, MAX_FLEET_BUNDLE_BYTES), BundleRead::Parse);
    assert_eq!(MAX_FLEET_BUNDLE_BYTES, 4 * 1024 * 1024);
}
