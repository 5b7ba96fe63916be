use layernotes::slug::{slugify, truncate};

#[test]
fn slugify_basic() {
    assert_eq!(slugify("Hello, World!"), "hello-world");
    assert_eq!(slugify("  multiple   spaces  "), "multiple-spaces");
    assert_eq!(slugify("ünicode stays"), "nicode-stays");
    assert_eq!(slugify("!!!"), "");
}

#[test]
fn slugify_keeps_digits_and_lowercases() {
    assert_eq!(slugify("Meeting 2024-05 Notes"), "meeting-2024-05-notes");
    assert_eq!(slugify("ABC"), "abc");
    assert_eq!(slugify(""), "");
}

#[test]
fn slugify_cuts_at_48_without_trailing_dash() {
    // 47 letters, a space, then more: the cut lands right after the dash.
    let title = format!("{} tail", "a".repeat(47));
    let slug = slugify(&title);
    assert_eq!(slug, "a".repeat(47));
    let long = "b".repeat(60);
    assert_eq!(slugify(&long).len(), 48);
}

#[test]
fn truncate_marks_cut_lines() {
    assert_eq!(truncate("short", 44), "short");
    assert_eq!(truncate("abcdef", 3), "abc\u{2026}");
    assert_eq!(truncate("abc", 3), "abc");
    assert_eq!(truncate("éééé", 2), "éé\u{2026}");
}
