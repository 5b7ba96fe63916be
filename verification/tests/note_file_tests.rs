use layernotes::note_file::{compose_note, display_title, file_name, split_note};

const YAML: &str = "id: 0f3c1e2a-6b1d-4c2e-9a3b-1f2e3d4c5b6a\ntitle: Grocery\nx: 12.0\ny: 34.0\nwidth: 200.0\nheight: 150.0\ncolor: '#f9e2af'\n";

#[test]
fn frontmatter_round_trip() {
    let body = "# Grocery\n- milk\n- eggs\n";
    let text = compose_note(YAML, body);
    let parsed = split_note(&text);
    assert_eq!(parsed.frontmatter.as_deref(), Some(YAML));
    assert!(parsed.frontmatter.as_deref().unwrap().contains("title: Grocery"));
    assert!(parsed.frontmatter.as_deref().unwrap().contains("x: 12.0"));
    assert!(parsed.frontmatter.as_deref().unwrap().contains("'#f9e2af'"));
    assert_eq!(parsed.body.trim(), body.trim());
}

#[test]
fn plain_markdown_is_body_only() {
    let parsed = split_note("# Just markdown\n");
    assert!(parsed.frontmatter.is_none());
    assert_eq!(parsed.body, "# Just markdown\n");
}

#[test]
fn empty_body_round_trip() {
    let text = compose_note(YAML, "");
    assert_eq!(text, format!("---\n{YAML}---\n"));
    let parsed = split_note(&text);
    assert_eq!(parsed.frontmatter.as_deref(), Some(YAML));
    assert!(parsed.body.trim().is_empty());
}

#[test]
fn composed_file_layout() {
    let text = compose_note("a: 1\n", "\n\nhello\n");
    assert_eq!(text, "---\na: 1\n---\n\nhello\n");
    let parsed = split_note(&text);
    assert_eq!(parsed.body, "\nhello\n");
    // Saving what was read gives the same file.
    assert_eq!(compose_note("a: 1\n", &parsed.body), text);
}

#[test]
fn split_handles_bom_and_missing_close() {
    let parsed = split_note("\u{feff}---\nid: 1\n---\nbody");
    assert_eq!(parsed.frontmatter.as_deref(), Some("id: 1\n"));
    assert_eq!(parsed.body, "body");
    let open = split_note("---\nid: 1\nno close\n");
    assert_eq!(open.frontmatter.as_deref(), Some("id: 1\nno close\n"));
    assert_eq!(open.body, "");
    let spaced = split_note("  ---  \r\nk: v\n ---\nrest\n");
    assert_eq!(spaced.frontmatter.as_deref(), Some("k: v\n"));
    assert_eq!(spaced.body, "rest\n");
    let bom_only = split_note("\u{feff}plain");
    assert!(bom_only.frontmatter.is_none());
    assert_eq!(bom_only.body, "plain");
    let empty = split_note("");
    assert!(empty.frontmatter.is_none());
    assert_eq!(empty.body, "");
}

#[test]
fn display_title_prefers_title_then_first_line() {
    assert_eq!(display_title(Some("Grocery"), "# other"), "Grocery");
    assert_eq!(display_title(Some(""), "\n\n  ## Heading here  \nmore"), "Heading here");
    assert_eq!(display_title(None, ""), "note");
    assert_eq!(display_title(None, "   \n\t\n"), "note");
    assert_eq!(display_title(None, "###\nsecond"), "note");
    let long = "x".repeat(50);
    assert_eq!(display_title(None, &long), "x".repeat(40));
}

#[test]
fn file_name_uses_slug_and_short_id() {
    let id = 0xa1a2a3a4b1b2c1c2d1d2d3d4d5d6d7d8u128;
    assert_eq!(file_name(Some("Grocery List!"), id), "grocery-list-a1a2a3a4.md");
    assert_eq!(file_name(None, id), "note-a1a2a3a4.md");
    assert_eq!(file_name(Some("!!!"), id), "note-a1a2a3a4.md");
    assert_eq!(file_name(Some("x"), 0x0f3c1e2a_6b1d_4c2e_9a3b_1f2e3d4c5b6a), "x-0f3c1e2a.md");
}
