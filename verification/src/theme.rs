//! Theme colours written as `#rrggbb` or `#rgb`.

use vstd::prelude::*;

use crate::config::ThemeConfig;
use crate::note_file::trim_start_hashes;
use crate::text::{chars_of, trim, trim_bounds};

verus! {

/// A hex digit, either case (`char::is_ascii_hexdigit`).
pub open spec fn is_hex(c: char) -> bool {
    ||| '0' <= c <= '9'
    ||| 'a' <= c <= 'f'
    ||| 'A' <= c <= 'F'
}

/// The value of a hex digit.
pub open spec fn hex_val(c: char) -> int {
    if '0' <= c <= '9' {
        c as int - '0' as int
    } else if 'a' <= c <= 'f' {
        c as int - 'a' as int + 10
    } else {
        c as int - 'A' as int + 10
    }
}

/// What is left of a colour once trimmed and stripped of leading `#`.
pub open spec fn hex_body(input: Seq<char>) -> Seq<char> {
    trim_start_hashes(trim(input))
}

/// Every character is a hex digit.
pub open spec fn all_hex(v: Seq<char>) -> bool {
    forall|i: int| 0 <= i < v.len() ==> is_hex(#[trigger] v[i])
}

/// The byte that the two hex digits at `i` and `i + 1` spell.
pub open spec fn hex_byte(v: Seq<char>, i: int) -> u8 {
    (16 * hex_val(v[i]) + hex_val(v[i + 1])) as u8
}

/// A short digit doubled: `a` stands for `aa`.
pub open spec fn doubled(c: char) -> u8 {
    (17 * hex_val(c)) as u8
}

/// The colour that `#rrggbb` or `#rgb` (short digits doubled) stands for:
/// after trimming and leading `#`, exactly 6 or 3 hex digits; anything else
/// is no colour.
pub open spec fn parse_hex_spec(input: Seq<char>) -> Option<(u8, u8, u8)> {
    let v = hex_body(input);
    if !all_hex(v) {
        None
    } else if v.len() == 6 {
        Some((hex_byte(v, 0), hex_byte(v, 2), hex_byte(v, 4)))
    } else if v.len() == 3 {
        Some((doubled(v[0]), doubled(v[1]), doubled(v[2])))
    } else {
        None
    }
}

fn hex_digit(c: char) -> (r: Option<u8>)
    ensures
        match r {
            Some(d) => is_hex(c) && d as int == hex_val(c),
            None => !is_hex(c),
        },
{
    if '0' <= c && c <= '9' {
        Some(((c as u32) - ('0' as u32)) as u8)
    } else if 'a' <= c && c <= 'f' {
        Some(((c as u32) - ('a' as u32) + 10) as u8)
    } else if 'A' <= c && c <= 'F' {
        Some(((c as u32) - ('A' as u32) + 10) as u8)
    } else {
        None
    }
}

/// The bounds of `hex_body(input)` inside the characters `all` of `input`.
fn hex_body_bounds(all: &Vec<char>, input: &str) -> (r: (usize, usize))
    requires
        all@ == input@,
    ensures
        r.0 <= r.1 <= all.len(),
        all@.subrange(r.0 as int, r.1 as int) == hex_body(input@),
{
    let (a, b) = trim_bounds(all, 0, all.len());
    assert(all@.subrange(0, all.len() as int) =~= input@);
    let mut h = a;
    while h < b && all[h] == '#'
        invariant
            a <= h <= b <= all.len(),
            trim_start_hashes(all@.subrange(h as int, b as int)) == hex_body(input@),
        decreases b - h,
    {
        assert(all@.subrange(h as int, b as int).drop_first() =~= all@.subrange(h + 1, b as int));
        h += 1;
    }
    assert(trim_start_hashes(all@.subrange(h as int, b as int)) == all@.subrange(h as int, b as int));
    (h, b)
}

/// The values of the hex digits of `all[lo..hi]`, or `None` if one is not a
/// hex digit.
fn digits(all: &Vec<char>, lo: usize, hi: usize) -> (r: Option<Vec<u8>>)
    requires
        lo <= hi <= all.len(),
    ensures
        match r {
            Some(d) => all_hex(all@.subrange(lo as int, hi as int)) && d.len() == hi - lo
                && forall|i: int| 0 <= i < d.len() ==> #[trigger] d@[i] as int == hex_val(all@[lo + i]),
            None => !all_hex(all@.subrange(lo as int, hi as int)),
        },
{
    let mut d: Vec<u8> = Vec::new();
    let mut i = lo;
    while i < hi
        invariant
            lo <= i <= hi <= all.len(),
            d.len() == i - lo,
            forall|j: int| lo <= j < i ==> is_hex(#[trigger] all@[j]),
            forall|j: int| 0 <= j < d.len() ==> #[trigger] d@[j] as int == hex_val(all@[lo + j]),
        decreases hi - i,
    {
        match hex_digit(all[i]) {
            Some(x) => d.push(x),
            None => {
                assert(all@.subrange(lo as int, hi as int)[i - lo] == all@[i as int]);
                return None;
            },
        }
        i += 1;
    }
    assert forall|j: int| 0 <= j < hi - lo implies is_hex(
        #[trigger] all@.subrange(lo as int, hi as int)[j],
    ) by {
        assert(all@.subrange(lo as int, hi as int)[j] == all@[lo + j]);
    }
    Some(d)
}

/// Parse `#rrggbb` or `#rgb` into an opaque colour's red, green and blue.
pub fn parse_hex(input: &str) -> (rgb: Option<(u8, u8, u8)>)
    ensures
        rgb == parse_hex_spec(input@),
{
    let all = chars_of(input);
    let (h, b) = hex_body_bounds(&all, input);
    let ghost v = all@.subrange(h as int, b as int);
    let n = b - h;
    if n != 6 && n != 3 {
        return None;
    }
    let d = match digits(&all, h, b) {
        Some(d) => d,
        None => {
            return None;
        },
    };
    assert(forall|i: int| 0 <= i < n ==> v[i] == all@[h + i]);
    if n == 6 {
        assert(d@[0] as int == hex_val(v[0]));
        assert(d@[1] as int == hex_val(v[1]));
        assert(d@[2] as int == hex_val(v[2]));
        assert(d@[3] as int == hex_val(v[3]));
        assert(d@[4] as int == hex_val(v[4]));
        assert(d@[5] as int == hex_val(v[5]));
        Some((d[0] * 16 + d[1], d[2] * 16 + d[3], d[4] * 16 + d[5]))
    } else {
        assert(d@[0] as int == hex_val(v[0]));
        assert(d@[1] as int == hex_val(v[1]));
        assert(d@[2] as int == hex_val(v[2]));
        Some((d[0] * 17, d[1] * 17, d[2] * 17))
    }
}

/// The theme's colours, each falling back to the built-in one when it does
/// not parse.
#[derive(Debug, Clone, Copy, PartialEq, Eq)]
pub struct ThemeColors {
    pub text: (u8, u8, u8),
    pub muted: (u8, u8, u8),
    pub accent: (u8, u8, u8),
    pub border: (u8, u8, u8),
    pub button_bg: (u8, u8, u8),
}

/// A parsed colour, or the fallback.
pub open spec fn color_or(input: Seq<char>, fallback: (u8, u8, u8)) -> (u8, u8, u8) {
    match parse_hex_spec(input) {
        Some(c) => c,
        None => fallback,
    }
}

fn parse_or(input: &str, fallback: (u8, u8, u8)) -> (c: (u8, u8, u8))
    ensures
        c == color_or(input@, fallback),
{
    match parse_hex(input) {
        Some(c) => c,
        None => fallback,
    }
}

/// The colours of a theme, each parsed or, failing that, the built-in one.
pub fn theme_colors(theme: &ThemeConfig) -> (colors: ThemeColors)
    ensures
        colors.text == color_or(theme.text@, (0xcd, 0xd6, 0xf4)),
        colors.muted == color_or(theme.muted@, (0x7f, 0x84, 0x9c)),
        colors.accent == color_or(theme.accent@, (0x89, 0xb4, 0xfa)),
        colors.border == color_or(theme.border@, (0x45, 0x47, 0x5a)),
        colors.button_bg == color_or(theme.button_bg@, (0x31, 0x32, 0x44)),
{
    ThemeColors {
        text: parse_or(theme.text.as_str(), (0xcd, 0xd6, 0xf4)),
        muted: parse_or(theme.muted.as_str(), (0x7f, 0x84, 0x9c)),
        accent: parse_or(theme.accent.as_str(), (0x89, 0xb4, 0xfa)),
        border: parse_or(theme.border.as_str(), (0x45, 0x47, 0x5a)),
        button_bg: parse_or(theme.button_bg.as_str(), (0x31, 0x32, 0x44)),
    }
}

} // verus!
