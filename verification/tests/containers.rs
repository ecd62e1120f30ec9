use nixdeck::container::{
    container_metadata, create_at, delete, export, export_outcome, list, load,
};
use nixdeck::model::{Dir, DirSet};
use nixdeck::store::CaptureStore;
use nixdeck::system::CommandResult;
use nixdeck::EngineError;

fn live_with(dirs: &[(&str, &[(&str, &str)])]) -> DirSet {
    let mut live = DirSet::new();
    for (name, files) in dirs {
        let mut d = Dir::new();
        for (f, data) in *files {
            d.set_file(f.to_string(), data.to_string());
        }
        live.set(name.to_string(), d);
    }
    live
}

fn file_of<'a>(live: &'a DirSet, dir: &str, file: &str) -> Option<&'a String> {
    live.get(&dir.to_string()).and_then(|d| d.get_file(&file.to_string()))
}

#[test]
fn container_capture_uses_broader_set() {
    let mut store = CaptureStore::new();
    let live = live_with(&[
        ("gtk-3.0", &[("settings.ini", "theme=dark")]),
        ("kitty", &[("kitty.conf", "a")]),
    ]);
    assert!(create_at(&mut store, &live, &"c1".to_string(), "t0".to_string()).is_ok());
    let meta = container_metadata(&store, &"c1".to_string()).unwrap();
    let comps: Vec<&str> = meta.components.iter().map(|s| s.as_str()).collect();
    assert_eq!(comps, vec!["kitty", "gtk-3.0"]);
}

#[test]
fn container_load_round_trip_and_backup() {
    let mut store = CaptureStore::new();
    let mut live = live_with(&[("rofi", &[("config.rasi", "width: 40;")])]);
    assert!(create_at(&mut store, &live, &"c1".to_string(), "t0".to_string()).is_ok());
    live.set_file_in(&"rofi".to_string(), "config.rasi".to_string(), "width: 60;".to_string());
    assert!(load(&store, &mut live, &"c1".to_string()).is_ok());
    assert_eq!(file_of(&live, "rofi", "config.rasi").unwrap().as_str(), "width: 40;");
    assert_eq!(
        file_of(&live, "rofi.nixdeck-backup", "config.rasi").unwrap().as_str(),
        "width: 60;"
    );
}

#[test]
fn container_list_and_delete() {
    let mut store = CaptureStore::new();
    let live = live_with(&[]);
    assert!(list(&store).is_empty());
    assert!(create_at(&mut store, &live, &"c1".to_string(), "t0".to_string()).is_ok());
    assert!(create_at(&mut store, &live, &"c2".to_string(), "t1".to_string()).is_ok());
    let names: Vec<String> = list(&store);
    assert_eq!(names.iter().map(|s| s.as_str()).collect::<Vec<_>>(), vec!["c1", "c2"]);
    assert!(matches!(
        delete(&mut store, &"c3".to_string()),
        Err(EngineError::NotFound)
    ));
    assert!(delete(&mut store, &"c1".to_string()).is_ok());
    let names: Vec<String> = list(&store);
    assert_eq!(names.iter().map(|s| s.as_str()).collect::<Vec<_>>(), vec!["c2"]);
}

#[test]
fn export_builds_archive_arguments() {
    let mut store = CaptureStore::new();
    let live = live_with(&[]);
    assert!(create_at(&mut store, &live, &"c1".to_string(), "t0".to_string()).is_ok());
    let args = export(
        &store,
        &"/home/u".to_string(),
        &"c1".to_string(),
        &"/tmp/c1.tar.gz".to_string(),
    )
    .unwrap();
    let args: Vec<&str> = args.iter().map(|s| s.as_str()).collect();
    assert_eq!(
        args,
        vec!["-czf", "/tmp/c1.tar.gz", "-C", "/home/u/.nixdeck/containers", "c1"]
    );
}

#[test]
fn export_missing_container_fails() {
    let store = CaptureStore::new();
    let r = export(
        &store,
        &"/home/u".to_string(),
        &"c1".to_string(),
        &"/tmp/c1.tar.gz".to_string(),
    );
    assert!(matches!(r, Err(EngineError::NotFound)));
}

#[test]
fn export_outcome_surfaces_tool_error() {
    let ok = CommandResult { success: true, stdout: String::new(), stderr: String::new() };
    assert!(export_outcome(&ok).is_ok());
    let bad = CommandResult {
        success: false,
        stdout: String::new(),
        stderr: "tar: no space".to_string(),
    };
    match export_outcome(&bad) {
        Err(EngineError::Subprocess(m)) => assert_eq!(m.as_str(), "tar: no space"),
        _ => panic!("expected a subprocess failure"),
    }
}

#[test]
fn container_create_with_clock_stamp() {
    let mut store = CaptureStore::new();
    let live = live_with(&[("dunst", &[("dunstrc", "origin = top-right")])]);
    assert!(nixdeck::container::create(&mut store, &live, &"stamped".to_string()).is_ok());
    let meta = container_metadata(&store, &"stamped".to_string()).unwrap();
    assert!(!meta.created.is_empty());
    assert_eq!(meta.components.iter().map(|s| s.as_str()).collect::<Vec<_>>(), vec!["dunst"]);
}
