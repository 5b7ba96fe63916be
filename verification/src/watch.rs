//! Which files and file events concern the notes directory and the config
//! file.

use vstd::prelude::*;

use crate::text::{chars_of, range_eq, str_eq};

verus! {

/// `name` ends with `.md`.
pub open spec fn ends_with_md(name: Seq<char>) -> bool {
    name.len() >= 3 && name.subrange(name.len() - 3, name.len() as int) == seq!['.', 'm', 'd']
}

fn md_suffix(v: &Vec<char>) -> (r: bool)
    ensures
        r == ends_with_md(v@),
{
    if v.len() < 3 {
        return false;
    }
    let mut md: Vec<char> = Vec::new();
    md.push('.');
    md.push('m');
    md.push('d');
    assert(md@ =~= seq!['.', 'm', 'd']);
    range_eq(v, v.len() - 3, v.len(), &md)
}

/// Whether a directory entry is a note: its extension (as `Path::extension`
/// reads it, after the last dot of a name that does not start with it) is `md`.
pub fn is_note_file(file_name: &str) -> (r: bool)
    ensures
        r == (file_name@.len() > 3 && ends_with_md(file_name@)),
{
    let v = chars_of(file_name);
    v.len() > 3 && md_suffix(&v)
}

/// Whether a change in the notes directory may concern a note: an event on the
/// directory itself (no name) or on a `.md` file.
pub fn is_notes_event(name: Option<&str>) -> (r: bool)
    ensures
        r == match name {
            None => true,
            Some(n) => ends_with_md(n@),
        },
{
    match name {
        None => true,
        Some(n) => {
            let v = chars_of(n);
            md_suffix(&v)
        },
    }
}

/// Whether a change in the config directory concerns the config file.
pub fn is_config_event(name: Option<&str>, config_file: &str) -> (r: bool)
    ensures
        r == match name {
            None => false,
            Some(n) => n@ == config_file@,
        },
{
    match name {
        None => false,
        Some(n) => str_eq(n, config_file),
    }
}

} // verus!
