//! Paths of the notes directory and the config file.
//!
//! Paths are plain strings here; the caller reads `$HOME` and
//! `$XDG_DATA_HOME` and hands them in.

use vstd::prelude::*;

use crate::text::{chars_of, push_range, push_str};

verus! {

/// Where the config file lives unless a path is given.
pub const DEFAULT_CONFIG_FILE_PATH: &'static str = "~/.config/layernotes/config.toml";

/// `PathBuf::join` on Unix: an absolute `rest` replaces `base`, otherwise a
/// single `/` separates them unless `base` is empty or already ends in one.
pub open spec fn path_join(base: Seq<char>, rest: Seq<char>) -> Seq<char> {
    if rest.len() > 0 && rest[0] == '/' {
        rest
    } else if base.len() > 0 && base.last() != '/' {
        base + seq!['/'] + rest
    } else {
        base + rest
    }
}

/// `path` with a leading `~` (alone, or followed by `/`) replaced by `home`.
pub open spec fn tilde_expanded(path: Seq<char>, home: Option<Seq<char>>) -> Seq<char> {
    match home {
        Some(h) => if path.len() >= 2 && path[0] == '~' && path[1] == '/' {
            path_join(h, path.skip(2))
        } else if path == seq!['~'] {
            h
        } else {
            path
        },
        None => path,
    }
}

/// The view of an optional string.
pub open spec fn opt_view(o: Option<&str>) -> Option<Seq<char>> {
    match o {
        Some(s) => Some(s@),
        None => None,
    }
}

/// The XDG data directory: `$XDG_DATA_HOME`, else `$HOME/.local/share`, else
/// the relative `.local/share`.
pub open spec fn data_dir_of(xdg_data_home: Option<Seq<char>>, home: Option<Seq<char>>) -> Seq<
    char,
> {
    match xdg_data_home {
        Some(d) => d,
        None => match home {
            Some(h) => path_join(h, ".local/share"@),
            None => ".local/share"@,
        },
    }
}

/// Joins two paths as `PathBuf::join` does.
pub fn join_path(base: &str, rest: &str) -> (joined: String)
    ensures
        joined@ == path_join(base@, rest@),
{
    let r = chars_of(rest);
    if r.len() > 0 && r[0] == '/' {
        let mut out = String::new();
        push_range(&mut out, &r, 0, r.len());
        assert(r@.subrange(0, r.len() as int) =~= rest@);
        assert(out@ =~= rest@);
        return out;
    }
    let b = chars_of(base);
    let mut out = String::new();
    push_range(&mut out, &b, 0, b.len());
    if b.len() > 0 && b[b.len() - 1] != '/' {
        out.push('/');
    }
    push_range(&mut out, &r, 0, r.len());
    assert(b@.subrange(0, b.len() as int) =~= base@);
    assert(r@.subrange(0, r.len() as int) =~= rest@);
    assert(out@ =~= path_join(base@, rest@));
    out
}

/// Expand a leading `~` using the home directory, when one is known.
pub fn expand_tilde(path: &str, home: Option<&str>) -> (expanded: String)
    ensures
        expanded@ == tilde_expanded(path@, opt_view(home)),
{
    let p = chars_of(path);
    if let Some(h) = home {
        if p.len() >= 2 && p[0] == '~' && p[1] == '/' {
            let mut rest = String::new();
            push_range(&mut rest, &p, 2, p.len());
            assert(rest@ =~= path@.skip(2));
            return join_path(h, rest.as_str());
        }
        if p.len() == 1 && p[0] == '~' {
            assert(path@ =~= seq!['~']);
            let mut out = String::new();
            push_str(&mut out, h);
            assert(out@ =~= h@);
            return out;
        }
        assert(path@ != seq!['~']);
    }
    let mut out = String::new();
    push_range(&mut out, &p, 0, p.len());
    assert(out@ =~= path@);
    out
}

/// The XDG data directory, from `$XDG_DATA_HOME` and `$HOME`.
pub fn data_dir(xdg_data_home: Option<&str>, home: Option<&str>) -> (dir: String)
    ensures
        dir@ == data_dir_of(opt_view(xdg_data_home), opt_view(home)),
{
    match xdg_data_home {
        Some(d) => {
            let mut out = String::new();
            push_str(&mut out, d);
            assert(out@ =~= d@);
            out
        },
        None => match home {
            Some(h) => join_path(h, ".local/share"),
            None => {
                let mut out = String::new();
                push_str(&mut out, ".local/share");
                assert(out@ =~= ".local/share"@);
                out
            },
        },
    }
}

/// `<data dir>/layernotes/notes`: where notes live unless configured otherwise.
pub fn default_notes_dir(xdg_data_home: Option<&str>, home: Option<&str>) -> (dir: String)
    ensures
        dir@ == path_join(
            path_join(data_dir_of(opt_view(xdg_data_home), opt_view(home)), "layernotes"@),
            "notes"@,
        ),
{
    let data = data_dir(xdg_data_home, home);
    let app = join_path(data.as_str(), "layernotes");
    join_path(app.as_str(), "notes")
}

/// The config file path, `~/.config/layernotes/config.toml` expanded.
pub fn default_config_path(home: Option<&str>) -> (path: String)
    ensures
        path@ == tilde_expanded(DEFAULT_CONFIG_FILE_PATH@, opt_view(home)),
{
    expand_tilde(DEFAULT_CONFIG_FILE_PATH, home)
}

} // verus!
