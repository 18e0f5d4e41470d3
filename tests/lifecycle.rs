use studio_core::backend::MockBackend;
use studio_core::checksum::{canonical_text, checksum_bytes, compute_checksum};
use studio_core::models::{Binding, BindingEntry, DeviceState, LayerState, Step};
use studio_core::registry::SessionRegistry;
use studio_core::session::{require_state, update_binding_in_layer, ErrorKind, SessionState, StudioError};
use studio_core::store::{
    copy_seed_data_if_missing, tmp_path_for, Capabilities, DeviceInfo, MockStore, Profile, SeedBundle,
};

fn tap(target: &str, layer: Option<i32>, arg: &str) -> BindingEntry {
    BindingEntry {
        target_id: target.to_string(),
        layer_id: layer,
        binding: Binding::SimpleAction { action: "TAP".to_string(), arg: Some(arg.to_string()), meta: None },
    }
}

fn layer(id: i32, bindings: Vec<BindingEntry>) -> LayerState {
    LayerState { id, bindings }
}

fn snapshot(layers: Vec<LayerState>, revision: Option<i32>) -> DeviceState {
    DeviceState { profile_id: "default".to_string(), layers, revision, checksum: Some(0) }
}

fn record(staged: Option<DeviceState>, applied: Option<DeviceState>, committed: Option<DeviceState>) -> SessionState {
    SessionState { version: 1, session_id: "s".to_string(), staged, applied, committed }
}

fn device(id: &str) -> DeviceInfo {
    DeviceInfo {
        id: id.to_string(),
        name: "Keyboard".to_string(),
        transport: "usb".to_string(),
        vendor_id: None,
        product_id: None,
        firmware_version: None,
    }
}

fn caps() -> Capabilities {
    Capabilities { volatile_apply: true, commit: true, layouts: true, keymap: true, scripts: false }
}

fn seed(committed: Option<DeviceState>) -> SeedBundle {
    SeedBundle {
        device: device("kb1"),
        capabilities: caps(),
        profile: Profile {
            id: "default".to_string(),
            name: "Default".to_string(),
            layers: vec![layer(1, vec![]), layer(2, vec![])],
        },
        layout: None,
        layout_element_ids: vec!["key:b".to_string(), "key:a".to_string(), "Knob".to_string()],
        targets: vec![],
        scripts: vec![],
        committed_state: committed,
        bindings: vec![],
    }
}

fn targets_of(l: &LayerState) -> Vec<String> {
    l.bindings.iter().map(|b| b.target_id.clone()).collect()
}

fn arg_of(b: &Binding) -> Option<String> {
    match b {
        Binding::SimpleAction { arg, .. } => arg.clone(),
        _ => None,
    }
}

#[test]
fn checksum_of_bytes_folds_by_31() {
    assert_eq!(checksum_bytes(&[]), 0);
    assert_eq!(checksum_bytes(&[1, 2]), 33);
    assert_eq!(checksum_bytes(&[255, 255, 255, 255, 255, 255, 255]), 1928985951);
}

#[test]
fn canonical_text_is_compact_json() {
    let s = DeviceState { profile_id: "p".to_string(), layers: vec![], revision: None, checksum: None };
    let text = String::from_utf8(canonical_text(&s)).unwrap();
    assert_eq!(text, "{\"profileId\":\"p\",\"layers\":[],\"revision\":null,\"checksum\":null}");
    assert_eq!(compute_checksum(&s), 655352900);
}

#[test]
fn checksum_of_snapshot_with_binding() {
    let s = snapshot(vec![layer(1, vec![tap("key:1,1", Some(1), "KC_ENTER")])], Some(0));
    assert_eq!(compute_checksum(&s), 3795932456);
    assert_eq!(compute_checksum(&s), compute_checksum(&s));
}

#[test]
fn checksum_escapes_strings_and_writes_negatives() {
    let s = DeviceState {
        profile_id: "a\"b".to_string(),
        layers: vec![layer(-2, vec![])],
        revision: Some(7),
        checksum: Some(u32::MAX),
    };
    let text = String::from_utf8(canonical_text(&s)).unwrap();
    assert_eq!(text, "{\"profileId\":\"a\\\"b\",\"layers\":[{\"id\":-2,\"bindings\":[]}],\"revision\":7,\"checksum\":4294967295}");
    assert_eq!(compute_checksum(&s), 113702367);
}

#[test]
fn checksum_changes_with_binding() {
    let a = snapshot(vec![layer(1, vec![tap("key:1,1", Some(1), "KC_A")])], Some(0));
    let b = snapshot(vec![layer(1, vec![tap("key:1,1", Some(1), "KC_B")])], Some(0));
    assert_ne!(compute_checksum(&a), compute_checksum(&b));
}

#[test]
fn inline_sequence_is_encoded_with_steps() {
    let step = Step { id: 1, name: "down".to_string(), op: "press".to_string(), arg: None, class: Some(3) };
    let e = BindingEntry {
        target_id: "enc:0".to_string(),
        layer_id: None,
        binding: Binding::InlineSequence { steps: vec![step], meta: Some("{\"k\":1}".to_string()) },
    };
    let s = snapshot(vec![layer(1, vec![e])], None);
    let text = String::from_utf8(canonical_text(&s)).unwrap();
    assert!(text.contains("\"binding\":{\"type\":\"inlineSequence\",\"steps\":[{\"id\":1,\"name\":\"down\",\"op\":\"press\",\"arg\":null,\"class\":3}],\"meta\":{\"k\":1}}"));
}

#[test]
fn merge_replaces_same_target() {
    let mut l = layer(1, vec![tap("a", None, "1"), tap("b", None, "2")]);
    update_binding_in_layer(&mut l, &tap("a", None, "3"));
    assert_eq!(l.bindings.len(), 2);
    let a: Vec<&BindingEntry> = l.bindings.iter().filter(|b| b.target_id == "a").collect();
    assert_eq!(a.len(), 1);
    assert_eq!(arg_of(&a[0].binding), Some("3".to_string()));
}

#[test]
fn merge_appends_new_target() {
    let mut l = layer(1, vec![tap("a", None, "1")]);
    update_binding_in_layer(&mut l, &tap("b", None, "2"));
    assert_eq!(targets_of(&l), vec!["a".to_string(), "b".to_string()]);
}

#[test]
fn merge_removes_duplicate_targets() {
    let mut l = layer(1, vec![tap("a", None, "1"), tap("b", None, "2"), tap("a", None, "9")]);
    update_binding_in_layer(&mut l, &tap("c", None, "3"));
    assert_eq!(targets_of(&l), vec!["b".to_string(), "a".to_string(), "c".to_string()]);
    assert_eq!(arg_of(&l.bindings[1].binding), Some("9".to_string()));
}

#[test]
fn set_binding_twice_keeps_latest() {
    let mut s = record(Some(snapshot(vec![layer(1, vec![])], Some(0))), None, None);
    s.set_binding(&tap("key:1,1", Some(1), "KC_A")).unwrap();
    s.set_binding(&tap("key:1,1", Some(1), "KC_B")).unwrap();
    let st = s.staged.as_ref().unwrap();
    assert_eq!(st.layers[0].bindings.len(), 1);
    assert_eq!(arg_of(&st.layers[0].bindings[0].binding), Some("KC_B".to_string()));
}

#[test]
fn set_binding_twice_on_default_layer_keeps_latest() {
    let mut s = record(Some(snapshot(vec![layer(2, vec![tap("other", None, "KC_O")]), layer(1, vec![])], None)), None, None);
    s.set_binding(&tap("key:0,0", None, "KC_A")).unwrap();
    s.set_binding(&tap("key:0,0", None, "KC_B")).unwrap();
    let st = s.staged.as_ref().unwrap();
    let hits: Vec<&BindingEntry> = st.layers[0].bindings.iter().filter(|b| b.target_id == "key:0,0").collect();
    assert_eq!(hits.len(), 1);
    assert_eq!(arg_of(&hits[0].binding), Some("KC_B".to_string()));
    assert_eq!(st.layers[0].bindings.len(), 2);
    assert_eq!(st.layers[1].bindings.len(), 0);
}

#[test]
fn set_binding_recomputes_staged_checksum() {
    let mut s = record(Some(snapshot(vec![layer(1, vec![])], Some(0))), None, None);
    s.set_binding(&tap("key:1,1", None, "KC_A")).unwrap();
    let st = s.staged.as_ref().unwrap();
    let mut expected = snapshot(vec![layer(1, vec![tap("key:1,1", None, "KC_A")])], Some(0));
    expected.checksum = Some(0);
    assert_eq!(st.checksum, Some(compute_checksum(&expected)));
}

#[test]
fn set_binding_defaults_to_first_layer() {
    let mut s = record(Some(snapshot(vec![layer(4, vec![]), layer(1, vec![])], None)), None, None);
    s.set_binding(&tap("x", None, "KC_X")).unwrap();
    let st = s.staged.as_ref().unwrap();
    assert_eq!(st.layers[0].bindings.len(), 1);
    assert_eq!(st.layers[1].bindings.len(), 0);
}

#[test]
fn set_binding_without_staged_fails() {
    let mut s = record(None, None, None);
    let r = s.set_binding(&tap("x", None, "KC_X"));
    assert!(matches!(r, Err(StudioError::NoStagedState)));
    assert_eq!(r.unwrap_err().kind(), ErrorKind::Validation);
}

#[test]
fn set_binding_unknown_layer_fails() {
    let mut s = record(Some(snapshot(vec![layer(1, vec![])], None)), None, None);
    let r = s.set_binding(&tap("x", Some(5), "KC_X"));
    assert!(matches!(r, Err(StudioError::LayerNotFound(5))));
    assert_eq!(r.unwrap_err().kind(), ErrorKind::NotFound);
    assert_eq!(s.staged.as_ref().unwrap().layers[0].bindings.len(), 0);
}

#[test]
fn set_binding_on_empty_staged_targets_layer_one() {
    let mut s = record(Some(snapshot(vec![], None)), None, None);
    let r = s.set_binding(&tap("x", None, "KC_X"));
    assert!(matches!(r, Err(StudioError::LayerNotFound(1))));
}

#[test]
fn apply_to_ram_copies_staged_and_defaults_revision() {
    let mut s = record(Some(snapshot(vec![layer(1, vec![tap("a", None, "1")])], None)), None, None);
    assert!(s.apply_to_ram());
    let a = s.applied.as_ref().unwrap();
    assert_eq!(a.revision, Some(0));
    assert_eq!(a.layers[0].bindings.len(), 1);
    let mut expected = snapshot(vec![layer(1, vec![tap("a", None, "1")])], Some(0));
    expected.checksum = Some(0);
    assert_eq!(a.checksum, Some(compute_checksum(&expected)));
    assert!(s.committed.is_none());
}

#[test]
fn apply_to_ram_without_staged_does_nothing() {
    let mut s = record(None, None, Some(snapshot(vec![], Some(2))));
    assert!(!s.apply_to_ram());
    assert!(s.applied.is_none());
}

#[test]
fn revert_restores_committed() {
    let mut s = record(Some(snapshot(vec![layer(1, vec![])], Some(3))), None, Some(snapshot(vec![layer(1, vec![])], Some(3))));
    s.set_binding(&tap("a", Some(1), "1")).unwrap();
    s.apply_to_ram();
    s.set_binding(&tap("b", Some(1), "2")).unwrap();
    assert!(s.revert_ram());
    for tier in [&s.staged, &s.applied] {
        let t = tier.as_ref().unwrap();
        assert_eq!(t.revision, Some(3));
        assert_eq!(t.layers[0].bindings.len(), 0);
        assert_eq!(t.checksum, Some(0));
    }
}

#[test]
fn revert_without_committed_does_nothing() {
    let mut s = record(Some(snapshot(vec![layer(1, vec![])], None)), None, None);
    assert!(!s.revert_ram());
    assert!(s.applied.is_none());
    assert!(s.staged.is_some());
}

#[test]
fn commit_advances_revision() {
    let mut s = record(Some(snapshot(vec![], Some(0))), Some(snapshot(vec![layer(7, vec![])], Some(4))), None);
    s.commit().unwrap();
    for tier in [&s.staged, &s.applied, &s.committed] {
        let t = tier.as_ref().unwrap();
        assert_eq!(t.revision, Some(5));
        assert_eq!(t.layers[0].id, 7);
    }
    s.commit().unwrap();
    assert_eq!(s.committed.as_ref().unwrap().revision, Some(6));
}

#[test]
fn commit_from_staged_without_revision_gives_one() {
    let mut s = record(Some(snapshot(vec![], None)), None, None);
    s.commit().unwrap();
    let c = s.committed.as_ref().unwrap();
    assert_eq!(c.revision, Some(1));
    let mut expected = snapshot(vec![], Some(1));
    expected.checksum = Some(0);
    assert_eq!(c.checksum, Some(compute_checksum(&expected)));
}

#[test]
fn commit_with_nothing_fails() {
    let mut s = record(None, None, Some(snapshot(vec![], Some(1))));
    let r = s.commit();
    assert!(matches!(r, Err(StudioError::NothingToCommit)));
    assert_eq!(s.committed.as_ref().unwrap().revision, Some(1));
}

#[test]
fn migrate_bumps_old_version() {
    let mut s = record(None, None, None);
    s.version = 0;
    assert!(s.migrate());
    assert_eq!(s.version, SessionState::current_version());
    assert!(!s.migrate());
    s.version = 7;
    assert!(!s.migrate());
    assert_eq!(s.version, 7);
}

#[test]
fn missing_record_is_a_validation_error() {
    let r = require_state(None);
    assert!(matches!(r, Err(StudioError::NoSessionState)));
    assert!(require_state(Some(record(None, None, None))).is_ok());
}

#[test]
fn registry_binds_and_unbinds() {
    let mut r = SessionRegistry::new();
    let s1 = "s1".to_string();
    let s2 = "s2".to_string();
    r.register(s1.clone(), "kb1".to_string());
    r.register(s2.clone(), "kb1".to_string());
    assert_eq!(r.resolve(&s1), Some("kb1".to_string()));
    assert_eq!(r.resolve(&s2), Some("kb1".to_string()));
    r.register(s1.clone(), "kb2".to_string());
    assert_eq!(r.resolve(&s1), Some("kb2".to_string()));
    r.unregister(&s1);
    assert_eq!(r.resolve(&s1), None);
    r.unregister(&s1);
    assert_eq!(r.resolve(&s2), Some("kb1".to_string()));
}

#[test]
fn store_paths() {
    let st = MockStore::new("/seed".to_string(), "/data".to_string());
    assert_eq!(st.devices_path(), "/seed/devices.json");
    assert_eq!(st.bundle_path("kb1"), "/seed/profiles/kb1/bundle.json");
    assert_eq!(st.state_path("kb1"), "/data/state/kb1.json");
}

#[test]
fn tmp_path_is_hidden_sibling() {
    assert_eq!(tmp_path_for("/data/state/kb1.json"), "/data/state/.kb1.json.tmp");
    assert_eq!(tmp_path_for("kb1.json"), ".kb1.json.tmp");
    assert_eq!(tmp_path_for("dir/"), "dir/.temp.json.tmp");
}

#[test]
fn seed_copy_only_when_data_root_missing() {
    assert!(copy_seed_data_if_missing("/seed", "/data", true).is_none());
    let c = copy_seed_data_if_missing("/seed", "/data", false).unwrap();
    assert_eq!(c.from, "/seed");
    assert_eq!(c.to, "/data");
    let st = MockStore::new("/seed".to_string(), "/data".to_string());
    assert!(st.copy_seeds_if_needed(true).is_none());
    assert_eq!(st.copy_seeds_if_needed(false).unwrap().to, "/data");
}

#[test]
fn first_open_has_equal_tiers_at_revision_zero() {
    let st = MockStore::new("/seed".to_string(), "/data".to_string());
    let s = st.initial_state_from_bundle("kb1", &seed(None));
    assert_eq!(s.session_id, "coldstart-kb1");
    assert_eq!(s.version, 1);
    for tier in [&s.staged, &s.applied, &s.committed] {
        let t = tier.as_ref().unwrap();
        assert_eq!(t.revision, Some(0));
        assert_eq!(t.checksum, Some(0));
        assert_eq!(t.profile_id, "default");
        assert_eq!(t.layers.len(), 2);
    }
}

#[test]
fn first_open_uses_bundle_committed_state() {
    let st = MockStore::new("/seed".to_string(), "/data".to_string());
    let s = st.initial_state_from_bundle("kb1", &seed(Some(snapshot(vec![layer(9, vec![])], Some(0)))));
    for tier in [&s.staged, &s.applied, &s.committed] {
        assert_eq!(tier.as_ref().unwrap().layers[0].id, 9);
    }
}

#[test]
fn profile_bundle_shows_staged_then_fallbacks() {
    let b = seed(None);
    let s = record(Some(snapshot(vec![layer(3, vec![])], None)), Some(snapshot(vec![layer(4, vec![])], None)), None);
    let p = b.to_profile_bundle("sid".to_string(), &s);
    assert_eq!(p.session_id, "sid");
    assert_eq!(p.profile.layers[0].id, 3);
    let s = record(None, Some(snapshot(vec![layer(4, vec![])], None)), None);
    assert_eq!(b.to_profile_bundle("sid".to_string(), &s).profile.layers[0].id, 4);
    let s = record(None, None, None);
    let p = b.to_profile_bundle("sid".to_string(), &s);
    assert_eq!(p.profile.layers.len(), 2);
    assert_eq!(p.profile.layers[0].id, 1);
    assert!(p.committed_state.is_none());
}

#[test]
fn profile_bundle_targets_sorted_from_layout() {
    let mut b = seed(None);
    let s = record(None, None, None);
    let p = b.to_profile_bundle("sid".to_string(), &s);
    assert_eq!(p.targets, vec!["Knob".to_string(), "key:a".to_string(), "key:b".to_string()]);
    b.targets = vec!["z".to_string(), "y".to_string()];
    let p = b.to_profile_bundle("sid".to_string(), &s);
    assert_eq!(p.targets, vec!["z".to_string(), "y".to_string()]);
}

#[test]
fn unknown_session_is_not_found() {
    let be = MockBackend::new("/seed".to_string(), "/data".to_string());
    let r = be.device_for_session(&"nope".to_string());
    assert!(matches!(r, Err(StudioError::UnknownSession)));
    assert_eq!(r.unwrap_err().kind(), ErrorKind::NotFound);
    assert!(be.run(&"nope".to_string(), &"script".to_string()).is_err());
    assert!(be.stop_all(&"nope".to_string()).is_err());
}

#[test]
fn open_sessions_get_fresh_ids() {
    let mut be = MockBackend::new("/seed".to_string(), "/data".to_string());
    let (s1, b1) = be.open_session("kb1".to_string(), &seed(None), None);
    let (_s2, b2) = be.open_session("kb1".to_string(), &seed(None), None);
    assert_ne!(b1.session_id, b2.session_id);
    assert_eq!(s1.session_id, b1.session_id);
    assert_eq!(be.device_for_session(&b1.session_id).ok(), Some("kb1".to_string()));
    assert_eq!(be.device_for_session(&b2.session_id).ok(), Some("kb1".to_string()));
    be.close_session(&b1.session_id);
    assert!(be.device_for_session(&b1.session_id).is_err());
    be.close_session(&b1.session_id);
    assert!(be.run(&b2.session_id, &"script".to_string()).is_ok());
    assert!(be.stop_all(&b2.session_id).is_ok());
}

#[test]
fn end_to_end_commit_keeps_new_binding() {
    let mut be = MockBackend::new("/seed".to_string(), "/data".to_string());
    let (state, bundle) = be.open_session_with_id("kb1".to_string(), "sid-1".to_string(), &seed(None), None);
    assert_eq!(state.session_id, "sid-1");
    assert_eq!(bundle.session_id, "sid-1");
    let dev = be.device_for_session(&"sid-1".to_string()).unwrap();
    assert_eq!(dev, "kb1");
    let mut state = require_state(Some(state)).unwrap();
    state.set_binding(&tap("key:1,1", Some(1), "KC_ENTER")).unwrap();
    assert!(state.apply_to_ram());
    state.commit().unwrap();
    let committed = state.committed.as_ref().unwrap();
    let l1 = committed.layers.iter().find(|l| l.id == 1).unwrap();
    assert!(l1.bindings.iter().any(|b| b.target_id == "key:1,1"));
    assert!(committed.revision.unwrap_or(0) >= 1);
}

#[test]
fn reopen_keeps_persisted_record() {
    let mut be = MockBackend::new("/seed".to_string(), "/data".to_string());
    let existing = record(None, None, Some(snapshot(vec![layer(1, vec![])], Some(8))));
    let (state, bundle) = be.open_session_with_id("kb1".to_string(), "sid-2".to_string(), &seed(None), Some(existing));
    assert_eq!(state.session_id, "sid-2");
    assert_eq!(state.committed.as_ref().unwrap().revision, Some(8));
    assert!(state.staged.is_none());
    assert_eq!(bundle.profile.layers.len(), 1);
    assert_eq!(bundle.capabilities, caps());
    assert_eq!(bundle.device.id, "kb1");
}
