use nixdeck::editor::{apply_config, get_config, preview_config};
use nixdeck::meta::{encode_metadata, parse_metadata};
use nixdeck::model::{Dir, DirSet};
use nixdeck::EngineError;

fn live_with_kitty(content: &str) -> DirSet {
    let mut live = DirSet::new();
    let mut d = Dir::new();
    d.set_file("kitty.conf".to_string(), content.to_string());
    live.set("kitty".to_string(), d);
    live
}

#[test]
fn editor_round_trip() {
    let mut live = live_with_kitty("font=Mono");
    let text = "font=Fira Code\nsize=12\nünïcode=✓";
    assert!(apply_config(&mut live, &"kitty".to_string(), text.to_string()).is_ok());
    let got = get_config(&live, &"kitty".to_string()).unwrap();
    assert_eq!(got.as_str(), text);
}

#[test]
fn apply_keeps_backup_of_previous_content() {
    let mut live = live_with_kitty("font=Mono");
    assert!(apply_config(&mut live, &"kitty".to_string(), "font=Serif".to_string()).is_ok());
    let backup = live
        .get(&"kitty".to_string())
        .unwrap()
        .get_file(&"kitty.conf.nixdeck-backup".to_string())
        .unwrap();
    assert_eq!(backup.as_str(), "font=Mono");
}

#[test]
fn editor_unknown_component_fails() {
    let live = live_with_kitty("x");
    assert!(matches!(
        get_config(&live, &"emacs".to_string()),
        Err(EngineError::UnknownComponent)
    ));
    let mut live = live;
    assert!(matches!(
        apply_config(&mut live, &"emacs".to_string(), "y".to_string()),
        Err(EngineError::UnknownComponent)
    ));
}

#[test]
fn apply_without_existing_file_fails() {
    // The write's backup step has nothing to copy: strict failure, unlike
    // capture backups which skip absent components.
    let mut live = DirSet::new();
    let r = apply_config(&mut live, &"kitty".to_string(), "font=Serif".to_string());
    assert!(matches!(r, Err(EngineError::NotFound)));
    let mut live = live_with_kitty("a");
    assert!(live.remove_file_in(&"kitty".to_string(), &"kitty.conf".to_string()));
    let r = apply_config(&mut live, &"kitty".to_string(), "b".to_string());
    assert!(matches!(r, Err(EngineError::NotFound)));
}

#[test]
fn preview_shows_both_sections() {
    let live = live_with_kitty("font=Mono");
    let text = preview_config(&live, &"kitty".to_string(), &"font=Serif".to_string()).unwrap();
    assert_eq!(
        text.as_str(),
        "=== CURRENT ===\nfont=Mono\n\n=== NEW ===\nfont=Serif"
    );
}

#[test]
fn metadata_encodes_canonically() {
    let items = vec!["waybar".to_string(), "kitty".to_string()];
    let text = encode_metadata(
        &"s1".to_string(),
        &"2020-01-01T00:00:00+00:00".to_string(),
        &"".to_string(),
        &"files".to_string(),
        &items,
    );
    assert_eq!(
        text.as_str(),
        "{\"name\":\"s1\",\"created\":\"2020-01-01T00:00:00+00:00\",\"description\":\"\",\"files\":[\"waybar\",\"kitty\"]}"
    );
}

#[test]
fn metadata_round_trip() {
    let items = vec!["waybar".to_string(), "kitty".to_string()];
    let text = encode_metadata(
        &"s1".to_string(),
        &"t0".to_string(),
        &"".to_string(),
        &"files".to_string(),
        &items,
    );
    let parts = parse_metadata(text.as_str(), "files").unwrap();
    assert_eq!(parts.name.as_str(), "s1");
    assert_eq!(parts.created.as_str(), "t0");
    assert_eq!(parts.description.as_str(), "");
    assert_eq!(
        parts.items.iter().map(|s| s.as_str()).collect::<Vec<_>>(),
        vec!["waybar", "kitty"]
    );
}

#[test]
fn metadata_round_trip_empty_list_and_component_key() {
    let items: Vec<String> = Vec::new();
    let text = encode_metadata(
        &"c1".to_string(),
        &"t0".to_string(),
        &"".to_string(),
        &"components".to_string(),
        &items,
    );
    assert_eq!(
        text.as_str(),
        "{\"name\":\"c1\",\"created\":\"t0\",\"description\":\"\",\"components\":[]}"
    );
    let parts = parse_metadata(text.as_str(), "components").unwrap();
    assert_eq!(parts.name.as_str(), "c1");
    assert!(parts.items.is_empty());
}

#[test]
fn malformed_metadata_is_a_parse_failure() {
    for bad in [
        "",
        "{}",
        "not json at all",
        "{\"name\":\"s1\"}",
        "{\"name\":\"s1\",\"created\":\"t0\",\"description\":\"\"}",
        "{\"name\":\"s1\",\"created\":\"t0\",\"description\":\"\",\"files\":[\"a\"",
        "{\"name\":\"s1\",\"created\":\"t0\",\"description\":\"\",\"files\":[\"a\"]}extra",
        "{\"name\":\"s\\n1\",\"created\":\"t0\",\"description\":\"\",\"files\":[]}",
    ] {
        let r = parse_metadata(bad, "files");
        assert!(
            matches!(r, Err(EngineError::ParseFailure)),
            "accepted: {}",
            bad
        );
    }
}

#[test]
fn metadata_with_wrong_list_key_fails() {
    let text = "{\"name\":\"s1\",\"created\":\"t0\",\"description\":\"\",\"components\":[]}";
    assert!(matches!(
        parse_metadata(text, "files"),
        Err(EngineError::ParseFailure)
    ));
    assert!(parse_metadata(text, "components").is_ok());
}

#[test]
fn metadata_reader_tolerates_reordering_whitespace_and_unknown_fields() {
    let texts = [
        // reordered fields
        "{\"files\":[\"kitty\"],\"description\":\"\",\"created\":\"t0\",\"name\":\"s1\"}",
        // whitespace between tokens
        "{ \"name\" : \"s1\" , \"created\" : \"t0\" , \"description\" : \"\" , \"files\" : [ \"kitty\" ] }",
        // unknown scalar, string and nested fields are ignored
        "{\"name\":\"s1\",\"version\":3,\"created\":\"t0\",\"note\":\"a \\\"quoted\\\" one\",\"description\":\"\",\"extra\":{\"deep\":[1,2,{}]},\"files\":[\"kitty\"]}",
    ];
    for text in texts {
        let parts = parse_metadata(text, "files").unwrap();
        assert_eq!(parts.name.as_str(), "s1");
        assert_eq!(parts.created.as_str(), "t0");
        assert_eq!(parts.description.as_str(), "");
        assert_eq!(
            parts.items.iter().map(|s| s.as_str()).collect::<Vec<_>>(),
            vec!["kitty"]
        );
    }
}

#[test]
fn metadata_reader_requires_the_list_field() {
    // Unknown fields are ignored, but a missing list field is a hard
    // failure, never defaulted to an empty list.
    let text = "{\"name\":\"s1\",\"created\":\"t0\",\"description\":\"\",\"extras\":[\"kitty\"]}";
    assert!(matches!(
        parse_metadata(text, "files"),
        Err(EngineError::ParseFailure)
    ));
}
