use layernotes::geometry::{output_layout, OutputRect, PartialOutput};
use layernotes::watch::{is_config_event, is_note_file, is_notes_event};

#[test]
fn note_files_and_events() {
    assert!(is_note_file("grocery-0f3c1e2a.md"));
    assert!(!is_note_file(".md"));
    assert!(!is_note_file("notes.txt"));
    assert!(!is_note_file("md"));
    assert!(is_notes_event(None));
    assert!(is_notes_event(Some("a.md")));
    assert!(!is_notes_event(Some("a.md.swp")));
    assert!(is_config_event(Some("config.toml"), "config.toml"));
    assert!(!is_config_event(Some("config.toml~"), "config.toml"));
    assert!(!is_config_event(None, "config.toml"));
}

#[test]
fn output_layout_divides_by_scale() {
    let partial = PartialOutput {
        name: Some("DP-1".to_owned()),
        position: Some((1920, 0)),
        mode: Some((5120, 2880)),
        scale: 2,
    };
    let (name, rect) = output_layout(&partial).unwrap();
    assert_eq!(name, "DP-1");
    assert_eq!(rect, OutputRect { x: 1920, y: 0, width: 2560, height: 1440 });
    let unscaled = PartialOutput { scale: 0, ..partial.clone() };
    assert_eq!(output_layout(&unscaled).unwrap().1.width, 5120);
    let odd = PartialOutput { mode: Some((-7, 5)), scale: 2, ..partial.clone() };
    assert_eq!(output_layout(&odd).unwrap().1, OutputRect { x: 1920, y: 0, width: -3, height: 2 });
    let missing = PartialOutput { mode: None, ..partial };
    assert!(output_layout(&missing).is_none());
}
