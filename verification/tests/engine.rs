use nixdeck::model::{Dir, DirSet};
use nixdeck::snapshot::{
    create_snapshot_at, delete_snapshot, list_snapshots, restore_snapshot, snapshot_metadata,
};
use nixdeck::store::CaptureStore;
use nixdeck::EngineError;

fn live_with(dirs: &[(&str, &[(&str, &str)])]) -> DirSet {
    let mut live = DirSet::new();
    for (name, files) in dirs {
        let mut d = Dir::new();
        for (f, data) in *files {
            d.set_file(f.to_string(), data.to_string());
        }
        live.set(name.to_string(), d);
    }
    live
}

fn file_of<'a>(live: &'a DirSet, dir: &str, file: &str) -> Option<&'a String> {
    live.get(&dir.to_string()).and_then(|d| d.get_file(&file.to_string()))
}

#[test]
fn create_then_list_includes_name_once() {
    let mut store = CaptureStore::new();
    let live = live_with(&[("kitty", &[("kitty.conf", "font=Mono")])]);
    let r = create_snapshot_at(&mut store, &live, &"s1".to_string(), "t0".to_string());
    assert!(r.is_ok());
    let names = list_snapshots(&store);
    assert_eq!(names.iter().filter(|n| n.as_str() == "s1").count(), 1);
}

#[test]
fn duplicate_create_fails_and_leaves_state() {
    let mut store = CaptureStore::new();
    let live = live_with(&[("kitty", &[("kitty.conf", "font=Mono")])]);
    assert!(create_snapshot_at(&mut store, &live, &"s1".to_string(), "t0".to_string()).is_ok());
    let before = list_snapshots(&store);
    let meta_before = snapshot_metadata(&store, &"s1".to_string()).unwrap();
    let live2 = live_with(&[("kitty", &[("kitty.conf", "font=Serif")])]);
    let r = create_snapshot_at(&mut store, &live2, &"s1".to_string(), "t1".to_string());
    assert!(matches!(r, Err(EngineError::AlreadyExists)));
    let after = list_snapshots(&store);
    assert_eq!(
        before.iter().map(|s| s.as_str()).collect::<Vec<_>>(),
        after.iter().map(|s| s.as_str()).collect::<Vec<_>>()
    );
    let meta_after = snapshot_metadata(&store, &"s1".to_string()).unwrap();
    assert_eq!(meta_before.created, meta_after.created);
}

#[test]
fn invalid_name_is_rejected() {
    let mut store = CaptureStore::new();
    let live = live_with(&[]);
    let r = create_snapshot_at(&mut store, &live, &"a/b".to_string(), "t0".to_string());
    assert!(matches!(r, Err(EngineError::InvalidName)));
    let r = create_snapshot_at(&mut store, &live, &"".to_string(), "t0".to_string());
    assert!(matches!(r, Err(EngineError::InvalidName)));
}

#[test]
fn capture_records_only_present_components() {
    let mut store = CaptureStore::new();
    let live = live_with(&[
        ("kitty", &[("kitty.conf", "a")]),
        ("waybar", &[("config", "b")]),
        ("unrelated", &[("x", "y")]),
    ]);
    assert!(create_snapshot_at(&mut store, &live, &"s1".to_string(), "t0".to_string()).is_ok());
    let meta = snapshot_metadata(&store, &"s1".to_string()).unwrap();
    let files: Vec<&str> = meta.files.iter().map(|s| s.as_str()).collect();
    assert_eq!(files, vec!["waybar", "kitty"]);
    assert_eq!(meta.name.as_str(), "s1");
    assert_eq!(meta.created.as_str(), "t0");
    assert_eq!(meta.description.as_str(), "");
}

#[test]
fn snapshot_restore_round_trip_restores_deleted_file() {
    // The concrete scenario: kitty's directory holds kitty.conf with
    // "font=Mono"; after a capture, the live file is deleted; restore
    // brings it back byte-identical.
    let mut store = CaptureStore::new();
    let mut live = live_with(&[("kitty", &[("kitty.conf", "font=Mono")])]);
    assert!(create_snapshot_at(&mut store, &live, &"s1".to_string(), "t0".to_string()).is_ok());
    assert!(live.remove_file_in(&"kitty".to_string(), &"kitty.conf".to_string()));
    assert!(file_of(&live, "kitty", "kitty.conf").is_none());
    assert!(restore_snapshot(&store, &mut live, &"s1".to_string()).is_ok());
    assert_eq!(file_of(&live, "kitty", "kitty.conf").unwrap().as_str(), "font=Mono");
}

#[test]
fn restore_backs_up_live_directory() {
    let mut store = CaptureStore::new();
    let mut live = live_with(&[("kitty", &[("kitty.conf", "font=Mono")])]);
    assert!(create_snapshot_at(&mut store, &live, &"s1".to_string(), "t0".to_string()).is_ok());
    // Change the live config after the capture.
    live.set_file_in(
        &"kitty".to_string(),
        "kitty.conf".to_string(),
        "font=Serif".to_string(),
    );
    assert!(restore_snapshot(&store, &mut live, &"s1".to_string()).is_ok());
    // The live component holds the captured content again.
    assert_eq!(file_of(&live, "kitty", "kitty.conf").unwrap().as_str(), "font=Mono");
    // The pre-restore content sits at the reserved backup name.
    assert_eq!(
        file_of(&live, "kitty.pre-restore-backup", "kitty.conf").unwrap().as_str(),
        "font=Serif"
    );
}

#[test]
fn second_backup_overwrites_first() {
    let mut store = CaptureStore::new();
    let mut live = live_with(&[("kitty", &[("kitty.conf", "v0")])]);
    assert!(create_snapshot_at(&mut store, &live, &"s1".to_string(), "t0".to_string()).is_ok());
    live.set_file_in(&"kitty".to_string(), "kitty.conf".to_string(), "v1".to_string());
    assert!(restore_snapshot(&store, &mut live, &"s1".to_string()).is_ok());
    live.set_file_in(&"kitty".to_string(), "kitty.conf".to_string(), "v2".to_string());
    assert!(restore_snapshot(&store, &mut live, &"s1".to_string()).is_ok());
    assert_eq!(
        file_of(&live, "kitty.pre-restore-backup", "kitty.conf").unwrap().as_str(),
        "v2"
    );
}

#[test]
fn restore_missing_snapshot_fails_and_leaves_live() {
    let store = CaptureStore::new();
    let mut live = live_with(&[("kitty", &[("kitty.conf", "font=Mono")])]);
    let r = restore_snapshot(&store, &mut live, &"nope".to_string());
    assert!(matches!(r, Err(EngineError::NotFound)));
    assert_eq!(file_of(&live, "kitty", "kitty.conf").unwrap().as_str(), "font=Mono");
}

#[test]
fn delete_missing_fails_delete_existing_unlists() {
    let mut store = CaptureStore::new();
    let live = live_with(&[]);
    let r = delete_snapshot(&mut store, &"nope".to_string());
    assert!(matches!(r, Err(EngineError::NotFound)));
    assert!(create_snapshot_at(&mut store, &live, &"s1".to_string(), "t0".to_string()).is_ok());
    assert!(create_snapshot_at(&mut store, &live, &"s2".to_string(), "t1".to_string()).is_ok());
    assert!(delete_snapshot(&mut store, &"s1".to_string()).is_ok());
    let names: Vec<String> = list_snapshots(&store);
    assert!(!names.iter().any(|n| n.as_str() == "s1"));
    assert!(names.iter().any(|n| n.as_str() == "s2"));
}

#[test]
fn list_on_empty_store_is_empty() {
    let store = CaptureStore::new();
    let names = list_snapshots(&store);
    assert!(names.is_empty());
}

#[test]
fn create_with_clock_stamp_succeeds_and_lists() {
    let mut store = CaptureStore::new();
    let live = live_with(&[("picom", &[("picom.conf", "shadow=true")])]);
    assert!(nixdeck::snapshot::create_snapshot(&mut store, &live, &"stamped".to_string()).is_ok());
    let names = list_snapshots(&store);
    assert_eq!(names.iter().filter(|n| n.as_str() == "stamped").count(), 1);
    let meta = snapshot_metadata(&store, &"stamped".to_string()).unwrap();
    assert!(!meta.created.is_empty());
}
