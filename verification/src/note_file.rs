//! The note file format: a `---` fenced YAML frontmatter block followed by the
//! markdown body, plus the names and titles derived from a note.

use vstd::prelude::*;

use crate::slug::{slug_of, slugify};
use crate::text::{
    chars_of, find_line_end, lemma_line_end_bounds, line_end, push_range, push_str,
    string_of, sub_vec, trim, trim_bounds, trim_end, trim_start,
};

verus! {

/// The byte-order mark that an editor may put in front of a file.
pub const BOM: char = '\u{feff}';

/// `text` without a leading byte-order mark.
pub open spec fn strip_bom(text: Seq<char>) -> Seq<char> {
    if text.len() > 0 && text[0] == BOM {
        text.drop_first()
    } else {
        text
    }
}

/// A line that reads `---` once trimmed.
pub open spec fn is_fence(line: Seq<char>) -> bool {
    trim(line) == seq!['-', '-', '-']
}

/// Where the first fence line at or after the line start `i` begins.
pub open spec fn closing_fence(s: Seq<char>, i: int) -> Option<int>
    decreases s.len() - i,
{
    if 0 <= i < s.len() {
        proof {
            lemma_line_end_bounds(s, i);
        }
        let e = line_end(s, i);
        if is_fence(s.subrange(i, e)) {
            Some(i)
        } else {
            closing_fence(s, e)
        }
    } else {
        None
    }
}

/// The frontmatter (between the opening and the closing fence, if any) and the
/// body of a note file. A file whose first line is not a fence is all body.
pub open spec fn split_spec(text: Seq<char>) -> (Option<Seq<char>>, Seq<char>) {
    let t = strip_bom(text);
    let e0 = line_end(t, 0);
    if !is_fence(t.subrange(0, e0)) {
        (None, t)
    } else {
        match closing_fence(t, e0) {
            Some(k) => (Some(t.subrange(e0, k)), t.subrange(line_end(t, k), t.len() as int)),
            None => (Some(t.subrange(e0, t.len() as int)), seq![]),
        }
    }
}

/// `s` without its leading newlines.
pub open spec fn trim_start_newlines(s: Seq<char>) -> Seq<char>
    decreases s.len(),
{
    if s.len() > 0 && s[0] == '\n' {
        trim_start_newlines(s.drop_first())
    } else {
        s
    }
}

/// What follows the closing fence in a written note: nothing for an empty
/// body, else a blank line and the body without its leading newlines.
pub open spec fn written_body(body: Seq<char>) -> Seq<char> {
    let b = trim_start_newlines(body);
    if b.len() == 0 {
        seq![]
    } else {
        seq!['\n'] + b
    }
}

/// The fence line.
pub open spec fn fence_line() -> Seq<char> {
    seq!['-', '-', '-', '\n']
}

/// The text of a note file with the given frontmatter and body.
pub open spec fn compose_spec(frontmatter: Seq<char>, body: Seq<char>) -> Seq<char> {
    fence_line() + frontmatter + fence_line() + written_body(body)
}

/// A frontmatter block that survives a write and a read: it is empty or ends
/// in a newline, and none of its lines is a fence.
pub open spec fn is_frontmatter_block(y: Seq<char>) -> bool {
    &&& (y.len() == 0 || y.last() == '\n')
    &&& forall|j: int|
        0 <= j < y.len() && (j == 0 || y[j - 1] == '\n') ==> !is_fence(
            #[trigger] y.subrange(j, line_end(y, j)),
        )
}

proof fn lemma_line_end_shift(a: Seq<char>, y: Seq<char>, b: Seq<char>, j: int)
    requires
        0 <= j < y.len(),
        y.last() == '\n',
    ensures
        line_end(a + y + b, a.len() + j) == a.len() + line_end(y, j),
    decreases y.len() - j,
{
    let t = a + y + b;
    assert(t[a.len() + j] == y[j]);
    if y[j] != '\n' {
        lemma_line_end_shift(a, y, b, j + 1);
    }
}

proof fn lemma_fence_at(t: Seq<char>, p: int)
    requires
        0 <= p,
        p + 4 <= t.len(),
        t.subrange(p, p + 4) == fence_line(),
    ensures
        line_end(t, p) == p + 4,
        is_fence(t.subrange(p, p + 4)),
{
    assert(t[p] == t.subrange(p, p + 4)[0]);
    assert(t[p + 1] == t.subrange(p, p + 4)[1]);
    assert(t[p + 2] == t.subrange(p, p + 4)[2]);
    assert(t[p + 3] == t.subrange(p, p + 4)[3]);
    assert(line_end(t, p + 3) == p + 4);
    assert(line_end(t, p + 2) == p + 4);
    assert(line_end(t, p + 1) == p + 4);
    let f = fence_line();
    assert(trim_start(f) == f);
    assert(f.drop_last() =~= seq!['-', '-', '-']);
    assert(trim_end(seq!['-', '-', '-']) == seq!['-', '-', '-']);
    assert(trim_end(f) == seq!['-', '-', '-']);
}

proof fn lemma_closing_after(y: Seq<char>, w: Seq<char>, j: int)
    requires
        is_frontmatter_block(y),
        0 <= j <= y.len(),
        j == 0 || y[j - 1] == '\n',
    ensures
        closing_fence(fence_line() + y + fence_line() + w, 4 + j) == Some(4 + y.len() as int),
    decreases y.len() - j,
{
    let f = fence_line();
    let t = f + y + f + w;
    if j == y.len() {
        assert(t.subrange(4 + y.len() as int, 8 + y.len() as int) =~= f);
        lemma_fence_at(t, 4 + y.len() as int);
    } else {
        assert(t =~= f + y + (f + w));
        lemma_line_end_shift(f, y, f + w, j);
        lemma_line_end_bounds(y, j);
        let e = line_end(y, j);
        assert(t.subrange(4 + j, 4 + e) =~= y.subrange(j, e));
        assert(!is_fence(y.subrange(j, line_end(y, j))));
        assert(closing_fence(t, 4 + j) == closing_fence(t, 4 + e));
        lemma_closing_after(y, w, e);
    }
}

/// A file made of a fence line, a frontmatter block, a fence line and any
/// body splits into exactly that block and that body.
pub proof fn lemma_split_fenced(frontmatter: Seq<char>, body: Seq<char>)
    requires
        is_frontmatter_block(frontmatter),
    ensures
        split_spec(fence_line() + frontmatter + fence_line() + body) == (
            Some(frontmatter),
            body,
        ),
{
    let f = fence_line();
    let y = frontmatter;
    let t = f + y + f + body;
    assert(t[0] == '-');
    assert(strip_bom(t) == t);
    assert(t.subrange(0, 4) =~= f);
    lemma_fence_at(t, 0);
    lemma_closing_after(y, body, 0);
    assert(t.subrange(4 + y.len() as int, 8 + y.len() as int) =~= f);
    lemma_fence_at(t, 4 + y.len() as int);
    assert(t.subrange(4, 4 + y.len() as int) =~= y);
    assert(t.subrange(8 + y.len() as int, t.len() as int) =~= body);
}

/// Reading back a written note gives its frontmatter unchanged, and its body
/// as written: after a blank line, without the leading newlines it had.
pub proof fn lemma_write_then_read(frontmatter: Seq<char>, body: Seq<char>)
    requires
        is_frontmatter_block(frontmatter),
    ensures
        split_spec(compose_spec(frontmatter, body)) == (Some(frontmatter), written_body(body)),
{
    lemma_split_fenced(frontmatter, written_body(body));
}

proof fn lemma_trim_start_newlines(s: Seq<char>)
    ensures
        trim_start_newlines(s).len() == 0 || trim_start_newlines(s)[0] != '\n',
    decreases s.len(),
{
    if s.len() > 0 && s[0] == '\n' {
        lemma_trim_start_newlines(s.drop_first());
    }
}

/// Writing again the body that a written note reads back gives the same
/// file: a note that is only loaded and saved does not change.
pub proof fn lemma_rewrite_is_stable(frontmatter: Seq<char>, body: Seq<char>)
    ensures
        written_body(written_body(body)) == written_body(body),
        compose_spec(frontmatter, written_body(body)) == compose_spec(frontmatter, body),
{
    let b2 = trim_start_newlines(body);
    lemma_trim_start_newlines(body);
    if b2.len() > 0 {
        let wb = seq!['\n'] + b2;
        assert(wb.drop_first() =~= b2);
        assert(trim_start_newlines(wb) == trim_start_newlines(b2));
    } else {
        assert(written_body(body) =~= seq![]);
    }
}

/// Save, load, save: writing again what a written note reads back gives the
/// same file, as long as the frontmatter is a block that survives a read.
pub proof fn lemma_save_load_save(frontmatter: Seq<char>, body: Seq<char>)
    requires
        is_frontmatter_block(frontmatter),
    ensures
        ({
            let t = compose_spec(frontmatter, body);
            let (y, b) = split_spec(t);
            y == Some(frontmatter) && compose_spec(y->0, b) == t
        }),
{
    lemma_write_then_read(frontmatter, body);
    lemma_rewrite_is_stable(frontmatter, body);
}

/// A note file split into its optional YAML frontmatter and its body.
pub struct NoteText {
    pub frontmatter: Option<String>,
    pub body: String,
}

impl NoteText {
    pub open spec fn frontmatter_view(&self) -> Option<Seq<char>> {
        match self.frontmatter {
            Some(f) => Some(f@),
            None => None,
        }
    }
}

fn is_fence_range(v: &Vec<char>, a: usize, b: usize) -> (r: bool)
    requires
        a <= b <= v.len(),
    ensures
        r == (v@.subrange(a as int, b as int) == seq!['-', '-', '-']),
{
    if b - a != 3 {
        assert(v@.subrange(a as int, b as int).len() != 3);
        return false;
    }
    let r = v[a] == '-' && v[a + 1] == '-' && v[a + 2] == '-';
    assert(v@.subrange(a as int, b as int)[0] == v@[a as int]);
    assert(v@.subrange(a as int, b as int)[1] == v@[a + 1]);
    assert(v@.subrange(a as int, b as int)[2] == v@[a + 2]);
    if r {
        assert(v@.subrange(a as int, b as int) =~= seq!['-', '-', '-']);
    }
    r
}

/// Split a note file into its frontmatter and markdown body.
///
/// Files without frontmatter are treated as body-only.
pub fn split_note(text: &str) -> (parts: NoteText)
    ensures
        (parts.frontmatter_view(), parts.body@) == split_spec(text@),
{
    let v = chars_of(text);
    let start: usize = if v.len() > 0 && v[0] == BOM {
        1
    } else {
        0
    };
    let t = sub_vec(&v, start, v.len());
    assert(t@ =~= strip_bom(text@));
    let e0 = find_line_end(&t, 0);
    let (a, b) = trim_bounds(&t, 0, e0);
    assert(is_fence(t@.subrange(0, e0 as int)) == (t@.subrange(a as int, b as int) == seq![
        '-',
        '-',
        '-',
    ]));
    if !is_fence_range(&t, a, b) {
        return NoteText { frontmatter: None, body: string_of(&t, 0, t.len()) };
    }
    let mut i = e0;
    while i < t.len()
        invariant
            e0 <= i <= t.len(),
            closing_fence(t@, i as int) == closing_fence(t@, e0 as int),
            t@ == strip_bom(text@),
            e0 == line_end(t@, 0),
            is_fence(t@.subrange(0, e0 as int)),
        decreases t.len() - i,
    {
        let e = find_line_end(&t, i);
        proof {
            lemma_line_end_bounds(t@, i as int);
        }
        let (a, b) = trim_bounds(&t, i, e);
        assert(is_fence(t@.subrange(i as int, e as int)) == (t@.subrange(a as int, b as int)
            == seq!['-', '-', '-']));
        if is_fence_range(&t, a, b) {
            assert(closing_fence(t@, i as int) == Some(i as int));
            let frontmatter = string_of(&t, e0, i);
            let body = string_of(&t, e, t.len());
            assert(split_spec(text@).0 == Some(frontmatter@));
            assert(split_spec(text@).1 == body@);
            return NoteText { frontmatter: Some(frontmatter), body };
        }
        i = e;
    }
    let frontmatter = string_of(&t, e0, t.len());
    let body = String::new();
    NoteText { frontmatter: Some(frontmatter), body }
}

/// Render frontmatter and body back into a note file.
pub fn compose_note(frontmatter: &str, body: &str) -> (text: String)
    ensures
        text@ == compose_spec(frontmatter@, body@),
{
    let mut out = String::new();
    push_str(&mut out, "---\n");
    push_str(&mut out, frontmatter);
    push_str(&mut out, "---\n");
    let b = chars_of(body);
    let mut k: usize = 0;
    assert(b@.subrange(0, b.len() as int) =~= body@);
    while k < b.len() && b[k] == '\n'
        invariant
            k <= b.len(),
            trim_start_newlines(b@.subrange(k as int, b.len() as int)) == trim_start_newlines(
                body@,
            ),
        decreases b.len() - k,
    {
        assert(b@.subrange(k as int, b.len() as int).drop_first() =~= b@.subrange(
            k + 1,
            b.len() as int,
        ));
        k += 1;
    }
    assert(b@.subrange(0, b.len() as int) =~= body@);
    assert(trim_start_newlines(b@.subrange(k as int, b.len() as int)) == b@.subrange(
        k as int,
        b.len() as int,
    ));
    if k < b.len() {
        out.push('\n');
        push_range(&mut out, &b, k, b.len());
    }
    proof {
        reveal_strlit("---\n");
        assert("---\n"@ =~= fence_line());
    }
    assert(out@ =~= compose_spec(frontmatter@, body@));
    out
}

/// `s` without its leading `#` characters.
pub open spec fn trim_start_hashes(s: Seq<char>) -> Seq<char>
    decreases s.len(),
{
    if s.len() > 0 && s[0] == '#' {
        trim_start_hashes(s.drop_first())
    } else {
        s
    }
}

/// The first line of `s`, from the line start `i` on, that is not blank,
/// trimmed.
pub open spec fn first_content_line(s: Seq<char>, i: int) -> Option<Seq<char>>
    decreases s.len() - i,
{
    if 0 <= i < s.len() {
        proof {
            lemma_line_end_bounds(s, i);
        }
        let line = trim(s.subrange(i, line_end(s, i)));
        if line.len() > 0 {
            Some(line)
        } else {
            first_content_line(s, line_end(s, i))
        }
    } else {
        None
    }
}

/// Longest title taken from the body, in characters.
pub const TITLE_MAX: usize = 40;

/// The title shown when a note has nothing better.
pub open spec fn fallback_title() -> Seq<char> {
    seq!['n', 'o', 't', 'e']
}

/// The header title of a note: its own non-empty title, else its first
/// non-blank body line without heading marks, cut to `TITLE_MAX` characters,
/// else `note`.
pub open spec fn display_title_of(title: Option<Seq<char>>, body: Seq<char>) -> Seq<char> {
    if title is Some && title->0.len() > 0 {
        title->0
    } else {
        match first_content_line(body, 0) {
            Some(line) => {
                let t = trim(trim_start_hashes(line));
                let cut = if t.len() > TITLE_MAX {
                    t.take(TITLE_MAX as int)
                } else {
                    t
                };
                if cut.len() > 0 {
                    cut
                } else {
                    fallback_title()
                }
            },
            None => fallback_title(),
        }
    }
}

fn fallback_title_string() -> (s: String)
    ensures
        s@ == fallback_title(),
{
    let mut s = String::new();
    s.push('n');
    s.push('o');
    s.push('t');
    s.push('e');
    assert(s@ =~= fallback_title());
    s
}

/// A short human readable title for the note header.
pub fn display_title(title: Option<&str>, body: &str) -> (shown: String)
    ensures
        shown@ == display_title_of(
            match title {
                Some(t) => Some(t@),
                None => None,
            },
            body@,
        ),
{
    if let Some(t) = title {
        if !t.is_empty() {
            let mut out = String::new();
            push_str(&mut out, t);
            assert(out@ =~= t@);
            return out;
        }
    }
    let ghost tv = match title {
        Some(t) => Some(t@),
        None => None::<Seq<char>>,
    };
    assert(!(tv is Some && tv->0.len() > 0));
    let v = chars_of(body);
    let mut i: usize = 0;
    while i < v.len()
        invariant
            i <= v.len(),
            v@ == body@,
            !(tv is Some && tv->0.len() > 0),
            tv == match title {
                Some(t) => Some(t@),
                None => None::<Seq<char>>,
            },
            first_content_line(v@, i as int) == first_content_line(v@, 0),
        decreases v.len() - i,
    {
        let e = find_line_end(&v, i);
        proof {
            lemma_line_end_bounds(v@, i as int);
        }
        let (a, b) = trim_bounds(&v, i, e);
        if a < b {
            let line = Ghost(v@.subrange(a as int, b as int));
            assert(first_content_line(v@, i as int) == Some(line@));
            let mut h = a;
            while h < b && v[h] == '#'
                invariant
                    a <= h <= b <= v.len(),
                    trim_start_hashes(v@.subrange(h as int, b as int)) == trim_start_hashes(
                        line@,
                    ),
                decreases b - h,
            {
                assert(v@.subrange(h as int, b as int).drop_first() =~= v@.subrange(
                    h + 1,
                    b as int,
                ));
                h += 1;
            }
            assert(trim_start_hashes(v@.subrange(h as int, b as int)) == v@.subrange(
                h as int,
                b as int,
            ));
            let (c, d) = trim_bounds(&v, h, b);
            let n = if d - c > TITLE_MAX {
                TITLE_MAX
            } else {
                d - c
            };
            assert(v@.subrange(c as int, c + n) =~= if v@.subrange(c as int, d as int).len()
                > TITLE_MAX {
                v@.subrange(c as int, d as int).take(TITLE_MAX as int)
            } else {
                v@.subrange(c as int, d as int)
            });
            if n > 0 {
                return string_of(&v, c, c + n);
            } else {
                return fallback_title_string();
            }
        }
        i = e;
    }
    fallback_title_string()
}

/// The hex digit for `n` in `0..16`, lowercase.
pub open spec fn hex_digit(n: int) -> char {
    if n < 10 {
        ('0' as int + n) as char
    } else {
        ('a' as int + n - 10) as char
    }
}

/// The 32 lowercase hex digits of a UUID, most significant first: its
/// `simple` form.
pub open spec fn uuid_simple_hex(id: u128) -> Seq<char> {
    Seq::new(32, |i: int| hex_digit(((id >> ((124 - 4 * i) as u128)) & 0xf) as int))
}

/// `uuid::Uuid::from_u128(id).simple().to_string()`: the UUID whose big-endian
/// value is `id`, written as 32 lowercase hex digits with no hyphens, most
/// significant first.
#[verifier::external_body]
fn uuid_simple(id: u128) -> (s: String)
    ensures
        s@ == uuid_simple_hex(id),
{
    uuid::Uuid::from_u128(id).simple().to_string()
}

/// The stem of a note's file name: the slug of its title, or `note`.
pub open spec fn file_stem(title: Option<Seq<char>>) -> Seq<char> {
    match title {
        Some(t) => if slug_of(t).len() > 0 {
            slug_of(t)
        } else {
            fallback_title()
        },
        None => fallback_title(),
    }
}

/// `<stem>-<first 8 hex digits of the id>.md`.
pub open spec fn file_name_of(title: Option<Seq<char>>, id: u128) -> Seq<char> {
    file_stem(title) + seq!['-'] + uuid_simple_hex(id).take(8) + seq!['.', 'm', 'd']
}

/// Stable, human friendly file name derived from the title and id.
pub fn file_name(title: Option<&str>, id: u128) -> (name: String)
    ensures
        name@ == file_name_of(
            match title {
                Some(t) => Some(t@),
                None => None,
            },
            id,
        ),
{
    let mut name = match title {
        Some(t) => {
            let slug = slugify(t);
            if slug.as_str().is_empty() {
                fallback_title_string()
            } else {
                slug
            }
        },
        None => fallback_title_string(),
    };
    name.push('-');
    let hex = chars_of(uuid_simple(id).as_str());
    let short = if hex.len() < 8 {
        hex.len()
    } else {
        8
    };
    push_range(&mut name, &hex, 0, short);
    name.push('.');
    name.push('m');
    name.push('d');
    assert(hex@.subrange(0, short as int) =~= uuid_simple_hex(id).take(8));
    name
}

} // verus!
