use layernotes::paths::{data_dir, default_config_path, default_notes_dir, expand_tilde, join_path};

#[test]
fn tilde_expansion() {
    assert_eq!(expand_tilde("~/notes", Some("/home/ann")), "/home/ann/notes");
    assert_eq!(expand_tilde("~", Some("/home/ann")), "/home/ann");
    assert_eq!(expand_tilde("~/notes", None), "~/notes");
    assert_eq!(expand_tilde("~ann/notes", Some("/home/ann")), "~ann/notes");
    assert_eq!(expand_tilde("/abs/path", Some("/home/ann")), "/abs/path");
    assert_eq!(expand_tilde("~//etc", Some("/home/ann")), "/etc");
}

#[test]
fn path_join_follows_pathbuf() {
    assert_eq!(join_path("/a", "b"), "/a/b");
    assert_eq!(join_path("/a/", "b"), "/a/b");
    assert_eq!(join_path("", "b"), "b");
    assert_eq!(join_path("/a", "/b"), "/b");
    assert_eq!(join_path("/a", ""), "/a/");
}

#[test]
fn default_locations() {
    assert_eq!(default_config_path(Some("/home/ann")), "/home/ann/.config/layernotes/config.toml");
    assert_eq!(default_config_path(None), "~/.config/layernotes/config.toml");
    assert_eq!(data_dir(Some("/xdg"), Some("/home/ann")), "/xdg");
    assert_eq!(data_dir(None, Some("/home/ann")), "/home/ann/.local/share");
    assert_eq!(data_dir(None, None), ".local/share");
    assert_eq!(default_notes_dir(None, Some("/home/ann")), "/home/ann/.local/share/layernotes/notes");
    assert_eq!(default_notes_dir(Some("/data/"), None), "/data/layernotes/notes");
}
