use nixdeck::paths::{
    get_component_config_path, get_config_dir, get_container_path, get_containers_dir,
    get_loadout_path, get_loadouts_dir, get_snapshot_path, get_snapshots_dir, get_theme_path,
    get_themes_dir, live_config_dir,
};
use nixdeck::registry::{critical_components, get_snapshot_components, resolve_editor_entry};
use nixdeck::store::metadata_text;
use nixdeck::store::{CaptureRec, CaptureStore};
use nixdeck::model::DirSet;
use nixdeck::EngineError;

const HOME: &str = "/home/u";

#[test]
fn path_builders_compose_the_layout() {
    let home = HOME.to_string();
    assert_eq!(get_config_dir(&home).as_str(), "/home/u/.nixdeck");
    assert_eq!(live_config_dir(&home).as_str(), "/home/u/.config");
    assert_eq!(get_snapshots_dir(&home).as_str(), "/home/u/.nixdeck/snapshots");
    assert_eq!(
        get_snapshot_path(&home, &"s1".to_string()).as_str(),
        "/home/u/.nixdeck/snapshots/s1"
    );
    assert_eq!(get_containers_dir(&home).as_str(), "/home/u/.nixdeck/containers");
    assert_eq!(
        get_container_path(&home, &"c1".to_string()).as_str(),
        "/home/u/.nixdeck/containers/c1"
    );
    assert_eq!(get_loadouts_dir(&home).as_str(), "/home/u/.nixdeck/loadouts");
    assert_eq!(
        get_loadout_path(&home, &"default".to_string()).as_str(),
        "/home/u/.nixdeck/loadouts/default.nd2133-loadout"
    );
    assert_eq!(get_themes_dir(&home).as_str(), "/home/u/.nixdeck/themes");
    assert_eq!(
        get_theme_path(&home, &"blacksite".to_string()).as_str(),
        "/home/u/.nixdeck/themes/blacksite"
    );
}

#[test]
fn editor_paths_follow_the_registry() {
    let home = HOME.to_string();
    let cases = [
        ("waybar", "/home/u/.config/waybar/config"),
        ("polybar", "/home/u/.config/polybar/config.ini"),
        ("eww", "/home/u/.config/eww/eww.yuck"),
        ("conky", "/home/u/.config/conky/conky.conf"),
        ("kitty", "/home/u/.config/kitty/kitty.conf"),
        ("alacritty", "/home/u/.config/alacritty/alacritty.yml"),
        ("picom", "/home/u/.config/picom/picom.conf"),
        ("dunst", "/home/u/.config/dunst/dunstrc"),
        ("rofi", "/home/u/.config/rofi/config.rasi"),
    ];
    for (comp, path) in cases {
        let got = get_component_config_path(&home, &comp.to_string()).unwrap();
        assert_eq!(got.as_str(), path);
    }
    let r = get_component_config_path(&home, &"emacs".to_string());
    assert!(matches!(r, Err(EngineError::UnknownComponent)));
    assert!(matches!(
        resolve_editor_entry(&"gtk-3.0".to_string()),
        Err(EngineError::UnknownComponent)
    ));
}

#[test]
fn capture_registries_have_the_fixed_sets() {
    let critical: Vec<String> = critical_components();
    assert_eq!(
        critical.iter().map(|s| s.as_str()).collect::<Vec<_>>(),
        vec!["waybar", "polybar", "eww", "kitty", "alacritty", "picom"]
    );
    let broad: Vec<String> = get_snapshot_components();
    assert_eq!(
        broad.iter().map(|s| s.as_str()).collect::<Vec<_>>(),
        vec![
            "waybar",
            "polybar",
            "eww",
            "conky",
            "kitty",
            "alacritty",
            "picom",
            "dunst",
            "rofi",
            "gtk-3.0",
            "gtk-4.0"
        ]
    );
}

#[test]
fn metadata_text_of_a_loaded_record() {
    let rec = CaptureRec {
        name: "s1".to_string(),
        created: "t0".to_string(),
        description: String::new(),
        items: vec!["kitty".to_string()],
        data: DirSet::new(),
    };
    let text = metadata_text(&rec, &"files".to_string());
    assert_eq!(
        text.as_str(),
        "{\"name\":\"s1\",\"created\":\"t0\",\"description\":\"\",\"files\":[\"kitty\"]}"
    );
    let mut store = CaptureStore::new();
    assert!(store.add_rec(rec));
    let rec2 = CaptureRec {
        name: "s1".to_string(),
        created: "t1".to_string(),
        description: String::new(),
        items: Vec::new(),
        data: DirSet::new(),
    };
    assert!(!store.add_rec(rec2));
}
