use layernotes::note_file::split_note;
use layernotes::notes::{place_unplaced, NotePlacement};
use layernotes::reload::{reload_order, CreationKey, MergeSource, OpenNote};
use layernotes::geometry::layout_usable;
use layernotes::slug::{preview_lines, slugify};

#[test]
fn a_fenced_block_and_any_body_split_apart() {
    let parts = split_note("---\ntitle: x\n---\n\n\nbody\n");
    assert_eq!(parts.frontmatter.as_deref(), Some("title: x\n"));
    assert_eq!(parts.body, "\n\nbody\n");
}

#[test]
fn reload_merges_then_orders_by_creation() {
    let key = |secs, id| CreationKey { secs, nanos: 0, id };
    let open = vec![OpenNote { id: 1, keep: false }, OpenNote { id: 2, keep: true }];
    let open_keys = vec![key(10, 1), key(20, 2)];
    // Note 1 was read with an older creation time; note 3 is new and oldest.
    let loaded_keys = vec![key(30, 1), key(5, 3)];
    assert_eq!(
        reload_order(&open, &open_keys, &loaded_keys),
        vec![
            MergeSource::Loaded { loaded: 1, carry_from: None },
            MergeSource::Open(1),
            MergeSource::Loaded { loaded: 0, carry_from: Some(0) },
        ]
    );
}

#[test]
fn notes_without_a_monitor_go_to_the_new_one() {
    let mut notes = vec![
        NotePlacement { id: 1, output: None },
        NotePlacement { id: 2, output: Some("DP-2".to_owned()) },
    ];
    place_unplaced(&mut notes, "DP-1");
    assert_eq!(notes[0].output.as_deref(), Some("DP-1"));
    assert_eq!(notes[1].output.as_deref(), Some("DP-2"));
    assert_eq!(notes[0].id, 1);
}

#[test]
fn previews_skip_blank_lines_and_cut_long_ones() {
    let body = "  # Title  \n\n   \r\nabcdefgh\r\nsecond\nthird\nfourth\n";
    assert_eq!(preview_lines(body, 3, 6), vec!["# Titl\u{2026}", "abcdef\u{2026}", "second"]);
    assert_eq!(preview_lines(body, 10, 44).len(), 5);
    assert!(preview_lines("", 4, 44).is_empty());
    assert_eq!(preview_lines("no newline", 4, 44), vec!["no newline"]);
}

#[test]
fn a_layout_with_one_origin_for_all_is_unusable() {
    assert!(layout_usable(&vec![]));
    assert!(layout_usable(&vec![(0, 0)]));
    assert!(layout_usable(&vec![(0, 0), (1920, 0)]));
    assert!(!layout_usable(&vec![(0, 0), (0, 0), (0, 0)]));
    assert!(layout_usable(&vec![(0, 0), (0, 0), (0, 1080)]));
}

#[test]
fn slugs_have_single_inner_dashes_and_at_most_48_characters() {
    let long = "word ".repeat(20);
    let slug = slugify(&long);
    assert!(slug.len() <= 48);
    assert!(!slug.starts_with('-') && !slug.ends_with('-'));
    assert!(!slug.contains("--"));
    assert_eq!(slugify("--A  b--"), "a-b");
}
