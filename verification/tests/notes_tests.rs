use layernotes::config::Layer;
use layernotes::notes::{orphan_groups, target_output, NotePlacement};
use layernotes::outputs::Outputs;
use layernotes::reload::{creation_order, reload_plan, CreationKey, MergeSource, OpenNote};
use layernotes::session::{apply_edit, delete_request, note_is_raised, toggle_pin, EditAction};

fn placed(id: u128, output: Option<&str>) -> NotePlacement {
    NotePlacement { id, output: output.map(str::to_owned) }
}

fn two_monitors() -> Outputs {
    let mut outputs = Outputs::new(Layer::Bottom, 1);
    outputs.insert_output("DP-1".to_owned(), 10, None, 3, 4);
    outputs.insert_output("HDMI-A-1".to_owned(), 11, None, 5, 6);
    outputs
}

#[test]
fn notes_render_on_their_monitor_or_the_primary() {
    let outputs = two_monitors();
    assert_eq!(target_output(Some("HDMI-A-1"), &outputs), Some("HDMI-A-1".to_owned()));
    assert_eq!(target_output(None, &outputs), Some("DP-1".to_owned()));
    assert_eq!(target_output(Some("eDP-1"), &outputs), None);
}

#[test]
fn stranded_notes_are_grouped_by_monitor_name() {
    let outputs = two_monitors();
    let notes = vec![
        placed(1, Some("eDP-1")),
        placed(2, Some("DP-1")),
        placed(3, Some("DP-9")),
        placed(4, None),
        placed(5, Some("eDP-1")),
        placed(6, Some("DP-10")),
    ];
    let groups = orphan_groups(&notes, &outputs);
    assert_eq!(
        groups,
        vec![
            ("DP-10".to_owned(), vec![6]),
            ("DP-9".to_owned(), vec![3]),
            ("eDP-1".to_owned(), vec![1, 5]),
        ]
    );
    assert!(orphan_groups(&vec![placed(1, Some("DP-1"))], &outputs).is_empty());
}

#[test]
fn notes_load_in_creation_order() {
    let key = |secs, nanos, id| CreationKey { secs, nanos, id };
    let keys = vec![key(5, 0, 9), key(3, 10, 1), key(3, 5, 7), key(5, 0, 2), key(3, 10, 1)];
    assert_eq!(creation_order(&keys), vec![2, 1, 4, 3, 0]);
    assert!(creation_order(&Vec::new()).is_empty());
}

#[test]
fn reload_merges_open_and_loaded_notes() {
    let open = vec![
        OpenNote { id: 1, keep: false },
        OpenNote { id: 2, keep: true },
        OpenNote { id: 3, keep: false },
    ];
    // Note 3's file is gone, note 4 is new, note 1 was read twice.
    let loaded = vec![1, 2, 4, 1];
    assert_eq!(
        reload_plan(&open, &loaded),
        vec![
            MergeSource::Loaded { loaded: 3, carry_from: Some(0) },
            MergeSource::Open(1),
            MergeSource::Loaded { loaded: 2, carry_from: None },
        ]
    );
}

#[test]
fn pinning_waits_for_the_pointer() {
    // Unpinned, not edited, pointer over it: pinning defers the move.
    assert_eq!(toggle_pin(false, false, None, true), (true, Some(false)));
    assert!(!note_is_raised(false, true, Some(false)));
    // Pointer elsewhere: it moves at once.
    assert_eq!(toggle_pin(false, false, None, false), (true, None));
    assert!(note_is_raised(false, true, None));
    // An edited note stays raised whatever the pin says.
    assert_eq!(toggle_pin(true, true, None, true), (false, None));
}

#[test]
fn delete_asks_once_then_deletes() {
    let mut confirm = vec![false, true, false];
    assert!(!delete_request(&mut confirm, 2));
    assert_eq!(confirm, vec![false, false, true]);
    assert!(delete_request(&mut confirm, 2));
    assert_eq!(confirm, vec![false, false, true]);
}

#[test]
fn one_editor_at_a_time() {
    let mut editing = vec![true, false, true];
    assert_eq!(apply_edit(&mut editing, EditAction::Select(2)), vec![0]);
    assert_eq!(editing, vec![false, false, true]);
    assert_eq!(apply_edit(&mut editing, EditAction::Toggle(1)), vec![2]);
    assert_eq!(editing, vec![false, true, false]);
    assert_eq!(apply_edit(&mut editing, EditAction::Toggle(1)), vec![1]);
    assert_eq!(editing, vec![false, false, false]);
    let mut editing = vec![true, true];
    assert_eq!(apply_edit(&mut editing, EditAction::ExitAll), vec![0, 1]);
    assert_eq!(editing, vec![false, false]);
}
