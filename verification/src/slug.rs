//! File-name slugs and shortened preview lines.

use vstd::prelude::*;

use crate::text::{chars_of, find_line_end, lemma_line_end_bounds, line_end, string_of, trim, trim_bounds};

verus! {

/// `char::is_ascii_alphanumeric`.
pub open spec fn is_alnum(c: char) -> bool {
    ||| '0' <= c <= '9'
    ||| 'a' <= c <= 'z'
    ||| 'A' <= c <= 'Z'
}

/// `char::to_ascii_lowercase`.
pub open spec fn lower(c: char) -> char {
    if 'A' <= c <= 'Z' {
        ((c as u32) + 32) as char
    } else {
        c
    }
}

/// The maximal runs of ASCII alphanumerics in `s`, in order.
pub open spec fn words(s: Seq<char>) -> Seq<Seq<char>>
    decreases s.len(),
{
    if s.len() == 0 {
        seq![]
    } else {
        let p = s.drop_last();
        let c = s.last();
        let w = words(p);
        if !is_alnum(c) {
            w
        } else if p.len() > 0 && is_alnum(p.last()) {
            w.update(w.len() - 1, w.last().push(c))
        } else {
            w.push(seq![c])
        }
    }
}

/// The words joined with single dashes.
pub open spec fn join_dash(ws: Seq<Seq<char>>) -> Seq<char>
    decreases ws.len(),
{
    if ws.len() == 0 {
        seq![]
    } else if ws.len() == 1 {
        ws[0]
    } else {
        join_dash(ws.drop_last()) + seq!['-'] + ws.last()
    }
}

/// The lowercase words of `s` joined by dashes, before it is shortened.
pub open spec fn slug_body(s: Seq<char>) -> Seq<char> {
    join_dash(words(s)).map_values(|c: char| lower(c))
}

/// `s` with every trailing dash removed.
pub open spec fn trim_end_dashes(s: Seq<char>) -> Seq<char>
    decreases s.len(),
{
    if s.len() > 0 && s.last() == '-' {
        trim_end_dashes(s.drop_last())
    } else {
        s
    }
}

/// Longest slug, in characters.
pub const SLUG_MAX: usize = 48;

/// The slug of `s`: its lowercase ASCII words joined by dashes, cut to
/// `SLUG_MAX` characters, without a trailing dash.
pub open spec fn slug_of(s: Seq<char>) -> Seq<char> {
    let b = slug_body(s);
    trim_end_dashes(
        if b.len() > SLUG_MAX {
            b.take(SLUG_MAX as int)
        } else {
            b
        },
    )
}

proof fn lemma_words(s: Seq<char>)
    ensures
        forall|i: int| 0 <= i < words(s).len() ==> #[trigger] words(s)[i].len() > 0,
        s.len() > 0 && is_alnum(s.last()) ==> words(s).len() > 0,
    decreases s.len(),
{
    if s.len() > 0 {
        let p = s.drop_last();
        lemma_words(p);
        let w = words(p);
        if is_alnum(s.last()) {
            if p.len() > 0 && is_alnum(p.last()) {
                let u = w.update(w.len() - 1, w.last().push(s.last()));
                assert forall|i: int| 0 <= i < u.len() implies #[trigger] u[i].len() > 0 by {
                    if i == w.len() - 1 {
                        assert(u[i] == w.last().push(s.last()));
                    } else {
                        assert(u[i] == w[i]);
                    }
                }
            } else {
                let u = w.push(seq![s.last()]);
                assert forall|i: int| 0 <= i < u.len() implies #[trigger] u[i].len() > 0 by {
                    if i < w.len() {
                        assert(u[i] == w[i]);
                    }
                }
            }
        }
    }
}

proof fn lemma_join_push(ws: Seq<Seq<char>>, w: Seq<char>)
    ensures
        join_dash(ws.push(w)) == if ws.len() == 0 {
            w
        } else {
            join_dash(ws) + seq!['-'] + w
        },
{
    assert(ws.push(w).drop_last() =~= ws);
}

proof fn lemma_join_extend(ws: Seq<Seq<char>>, c: char)
    requires
        ws.len() > 0,
    ensures
        join_dash(ws.update(ws.len() - 1, ws.last().push(c))) == join_dash(ws).push(c),
{
    let u = ws.update(ws.len() - 1, ws.last().push(c));
    if ws.len() == 1 {
        assert(u[0] == ws[0].push(c));
    } else {
        assert(u.drop_last() =~= ws.drop_last());
        assert(join_dash(u) =~= join_dash(ws).push(c));
    }
}

proof fn lemma_join_nonempty(ws: Seq<Seq<char>>)
    requires
        ws.len() > 0,
        ws.last().len() > 0,
    ensures
        join_dash(ws).len() > 0,
{
}

proof fn lemma_slug_step(p: Seq<char>, c: char)
    ensures
        slug_body(p.push(c)) == if !is_alnum(c) {
            slug_body(p)
        } else if p.len() > 0 && is_alnum(p.last()) {
            slug_body(p).push(lower(c))
        } else if words(p).len() == 0 {
            seq![lower(c)]
        } else {
            slug_body(p).push('-').push(lower(c))
        },
        words(p).len() == 0 <==> slug_body(p).len() == 0,
{
    let s = p.push(c);
    assert(s.drop_last() =~= p);
    lemma_words(p);
    if words(p).len() > 0 {
        lemma_join_nonempty(words(p));
    }
    if is_alnum(c) {
        if p.len() > 0 && is_alnum(p.last()) {
            lemma_join_extend(words(p), c);
            assert(slug_body(s) =~= slug_body(p).push(lower(c)));
        } else {
            lemma_join_push(words(p), seq![c]);
            if words(p).len() == 0 {
                assert(slug_body(s) =~= seq![lower(c)]);
            } else {
                assert(slug_body(s) =~= slug_body(p).push('-').push(lower(c)));
            }
        }
    }
}

/// A character a slug may hold.
pub open spec fn slug_char(c: char) -> bool {
    ||| 'a' <= c <= 'z'
    ||| '0' <= c <= '9'
    ||| c == '-'
}

/// Two dashes in a row at `i`.
pub open spec fn dash_pair(r: Seq<char>, i: int) -> bool {
    r[i] == '-' && r[i + 1] == '-'
}

/// Only lowercase letters, digits and single dashes, not starting with a dash.
pub open spec fn dashed_words(r: Seq<char>) -> bool {
    &&& forall|i: int| 0 <= i < r.len() ==> slug_char(#[trigger] r[i])
    &&& forall|i: int| 0 <= i < r.len() - 1 ==> !#[trigger] dash_pair(r, i)
    &&& r.len() > 0 ==> r[0] != '-'
}

proof fn lemma_body_shape(s: Seq<char>)
    ensures
        dashed_words(slug_body(s)),
        slug_body(s).len() > 0 ==> slug_body(s).last() != '-',
    decreases s.len(),
{
    if s.len() > 0 {
        let p = s.drop_last();
        let c = s.last();
        assert(p.push(c) =~= s);
        lemma_body_shape(p);
        lemma_slug_step(p, c);
        let b = slug_body(p);
        let r = slug_body(s);
        if is_alnum(c) {
            assert(slug_char(lower(c)) && lower(c) != '-');
            assert forall|i: int| 0 <= i < r.len() implies slug_char(#[trigger] r[i]) by {
                if i < b.len() {
                    assert(r[i] == b[i]);
                }
            }
            assert forall|i: int| 0 <= i < r.len() - 1 implies !#[trigger] dash_pair(r, i) by {
                if i + 1 < b.len() {
                    assert(r[i] == b[i] && r[i + 1] == b[i + 1]);
                    assert(!dash_pair(b, i));
                } else if i + 1 == b.len() {
                    assert(r[i] == b.last());
                }
            }
            if b.len() > 0 {
                assert(r[0] == b[0]);
            }
        }
    }
}

proof fn lemma_prefix_shape(r: Seq<char>, k: int)
    requires
        dashed_words(r),
        0 <= k <= r.len(),
    ensures
        dashed_words(r.take(k)),
{
    let t = r.take(k);
    assert forall|i: int| 0 <= i < t.len() implies slug_char(#[trigger] t[i]) by {
        assert(t[i] == r[i]);
    }
    assert forall|i: int| 0 <= i < t.len() - 1 implies !#[trigger] dash_pair(t, i) by {
        assert(t[i] == r[i] && t[i + 1] == r[i + 1]);
        assert(!dash_pair(r, i));
    }
    if t.len() > 0 {
        assert(t[0] == r[0]);
    }
}

proof fn lemma_trim_end_dashes(x: Seq<char>)
    ensures
        trim_end_dashes(x).len() <= x.len(),
        trim_end_dashes(x) == x.take(trim_end_dashes(x).len() as int),
        trim_end_dashes(x).len() > 0 ==> trim_end_dashes(x).last() != '-',
    decreases x.len(),
{
    if x.len() > 0 && x.last() == '-' {
        lemma_trim_end_dashes(x.drop_last());
        let t = trim_end_dashes(x.drop_last());
        assert(x.drop_last().take(t.len() as int) =~= x.take(t.len() as int));
    } else {
        assert(x.take(x.len() as int) =~= x);
    }
}

/// A slug holds only lowercase ASCII letters, digits and dashes; it neither
/// starts nor ends with a dash, never has two dashes in a row, and is at
/// most `SLUG_MAX` characters long.
pub proof fn lemma_slug_shape(s: Seq<char>)
    ensures
        forall|i: int| 0 <= i < slug_of(s).len() ==> slug_char(#[trigger] slug_of(s)[i]),
        slug_of(s).len() > 0 ==> slug_of(s)[0] != '-' && slug_of(s).last() != '-',
        forall|i: int| 0 <= i < slug_of(s).len() - 1 ==> !#[trigger] dash_pair(slug_of(s), i),
        slug_of(s).len() <= SLUG_MAX,
{
    lemma_body_shape(s);
    let b = slug_body(s);
    let cut = if b.len() > SLUG_MAX {
        b.take(SLUG_MAX as int)
    } else {
        b
    };
    if b.len() > SLUG_MAX {
        lemma_prefix_shape(b, SLUG_MAX as int);
    }
    lemma_trim_end_dashes(cut);
    let r = trim_end_dashes(cut);
    lemma_prefix_shape(cut, r.len() as int);
    assert(r == cut.take(r.len() as int));
}

/// `char::is_ascii_alphanumeric`.
pub fn is_ascii_alphanumeric(c: char) -> (b: bool)
    ensures
        b == is_alnum(c),
{
    ('0' <= c && c <= '9') || ('a' <= c && c <= 'z') || ('A' <= c && c <= 'Z')
}

/// `char::to_ascii_lowercase`.
pub fn to_ascii_lowercase(c: char) -> (l: char)
    ensures
        l == lower(c),
{
    if 'A' <= c && c <= 'Z' {
        let b = c as u8;
        assert(b as u32 == c as u32);
        (b + 32) as char
    } else {
        c
    }
}

/// Lowercase, dash-separated slug limited to ASCII alphanumerics.
pub fn slugify(input: &str) -> (slug: String)
    ensures
        slug@ == slug_of(input@),
{
    let v = chars_of(input);
    let mut body: Vec<char> = Vec::new();
    let mut pending_dash = false;
    let mut i: usize = 0;
    while i < v.len()
        invariant
            i <= v.len(),
            body@ == slug_body(v@.take(i as int)),
            pending_dash == (i > 0 && !is_alnum(v@[i - 1])),
        decreases v.len() - i,
    {
        let ch = v[i];
        proof {
            assert(v@.take(i + 1) =~= v@.take(i as int).push(ch));
            lemma_slug_step(v@.take(i as int), ch);
        }
        if is_ascii_alphanumeric(ch) {
            if pending_dash && body.len() > 0 {
                body.push('-');
            }
            pending_dash = false;
            body.push(to_ascii_lowercase(ch));
        } else {
            pending_dash = true;
        }
        i += 1;
    }
    assert(v@.take(v.len() as int) =~= input@);
    let mut n = if body.len() > SLUG_MAX {
        SLUG_MAX
    } else {
        body.len()
    };
    assert(body@.subrange(0, n as int) =~= if body@.len() > SLUG_MAX {
        body@.take(SLUG_MAX as int)
    } else {
        body@
    });
    while n > 0 && body[n - 1] == '-'
        invariant
            n <= body.len(),
            trim_end_dashes(body@.subrange(0, n as int)) == slug_of(input@),
        decreases n,
    {
        assert(body@.subrange(0, n as int).drop_last() =~= body@.subrange(0, n - 1));
        n -= 1;
    }
    string_of(&body, 0, n)
}

/// The horizontal ellipsis that marks a shortened line.
pub const ELLIPSIS: char = '\u{2026}';

/// `line` cut to its first `max` characters, followed by an ellipsis when
/// anything was cut.
pub open spec fn truncated(line: Seq<char>, max: nat) -> Seq<char> {
    if line.len() > max {
        line.take(max as int).push(ELLIPSIS)
    } else {
        line
    }
}

/// A preview line of at most `max` characters, marked with an ellipsis when
/// it was cut.
pub fn truncate(line: &str, max: usize) -> (out: String)
    ensures
        out@ == truncated(line@, max as nat),
{
    let v = chars_of(line);
    if v.len() > max {
        let mut out = string_of(&v, 0, max);
        out.push(ELLIPSIS);
        out
    } else {
        string_of(&v, 0, v.len())
    }
}

/// The non-blank lines of `s` from the line start `i` on, each trimmed (the
/// lines of `str::lines`, trimmed, blank ones skipped).
pub open spec fn content_lines(s: Seq<char>, i: int) -> Seq<Seq<char>>
    decreases s.len() - i,
{
    if 0 <= i < s.len() {
        proof {
            lemma_line_end_bounds(s, i);
        }
        let e = line_end(s, i);
        let line = trim(s.subrange(i, e));
        if line.len() > 0 {
            seq![line] + content_lines(s, e)
        } else {
            content_lines(s, e)
        }
    } else {
        seq![]
    }
}

/// The preview of a note body: its first `count` non-blank lines, trimmed
/// and each cut to `max` characters.
pub open spec fn preview_of(body: Seq<char>, count: nat, max: nat) -> Seq<Seq<char>> {
    let lines = content_lines(body, 0);
    let n = if lines.len() < count {
        lines.len()
    } else {
        count
    };
    Seq::new(n, |k: int| truncated(lines[k], max))
}

/// The lines that preview a note body on the rescue board.
pub fn preview_lines(body: &str, count: usize, max: usize) -> (lines: Vec<String>)
    ensures
        lines.len() == preview_of(body@, count as nat, max as nat).len(),
        forall|k: int|
            0 <= k < lines.len() ==> (#[trigger] lines@[k])@ == preview_of(
                body@,
                count as nat,
                max as nat,
            )[k],
{
    let v = chars_of(body);
    let mut out: Vec<String> = Vec::new();
    let ghost mut taken: Seq<Seq<char>> = seq![];
    let mut i: usize = 0;
    while i < v.len() && out.len() < count
        invariant
            i <= v.len(),
            v@ == body@,
            out.len() <= count,
            out.len() == taken.len(),
            forall|k: int| 0 <= k < out.len() ==> (#[trigger] out@[k])@ == truncated(taken[k], max as nat),
            content_lines(v@, 0) == taken + content_lines(v@, i as int),
        decreases v.len() - i,
    {
        proof {
            lemma_line_end_bounds(v@, i as int);
        }
        let e = find_line_end(&v, i);
        let (a, b) = trim_bounds(&v, i, e);
        let ghost rest = content_lines(v@, e as int);
        if a < b {
            let line = string_of(&v, a, b);
            let cut = truncate(line.as_str(), max);
            out.push(cut);
            proof {
                let l = v@.subrange(a as int, b as int);
                assert(content_lines(v@, i as int) == seq![l] + rest);
                assert(taken + (seq![l] + rest) =~= taken.push(l) + rest);
                taken = taken.push(l);
            }
        } else {
            assert(content_lines(v@, i as int) == rest);
        }
        i = e;
    }
    proof {
        let lines = content_lines(v@, 0);
        let want = preview_of(body@, count as nat, max as nat);
        if i >= v.len() {
            assert(content_lines(v@, i as int) == Seq::<Seq<char>>::empty());
            assert(lines =~= taken);
        }
        assert forall|k: int| 0 <= k < out.len() implies (#[trigger] out@[k])@ == want[k] by {
            assert(lines[k] == taken[k]);
        }
    }
    out
}

} // verus!
