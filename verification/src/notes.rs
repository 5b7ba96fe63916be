//! Which monitor each note is shown on, and the notes stranded on monitors
//! that are no longer connected.

use vstd::prelude::*;

use crate::order::{chars_lt, lemma_lt_irreflexive, lemma_lt_total, lemma_lt_transitive, seq_lt};
use crate::outputs::{OutputEntry, Outputs};
use crate::text::{chars_of, push_str, str_eq};

verus! {

/// A note as far as placement goes: its id and the monitor it was put on.
#[derive(Debug, Clone)]
pub struct NotePlacement {
    /// The note's UUID, as `Uuid::as_u128` gives it.
    pub id: u128,
    pub output: Option<String>,
}

/// A monitor of that name is tracked.
pub open spec fn is_tracked(entries: Seq<OutputEntry>, name: Seq<char>) -> bool {
    exists|i: int| 0 <= i < entries.len() && (#[trigger] entries[i]).name@ == name
}

/// The monitor a note is rendered on: the one it names if connected, none
/// if it names a disconnected one, and the primary monitor if it names none.
pub open spec fn target_of(output: Option<Seq<char>>, entries: Seq<OutputEntry>) -> Option<
    Seq<char>,
> {
    match output {
        Some(name) => if is_tracked(entries, name) {
            Some(name)
        } else {
            None
        },
        None => if entries.len() > 0 {
            Some(entries[0].name@)
        } else {
            None
        },
    }
}

/// The output a note should render on. Notes assigned to a disconnected
/// monitor are not rendered normally; the rescue board lists them instead.
pub fn target_output(output: Option<&str>, outputs: &Outputs) -> (target: Option<String>)
    ensures
        match target {
            Some(t) => target_of(
                match output {
                    Some(o) => Some(o@),
                    None => None,
                },
                outputs.entries@,
            ) == Some(t@),
            None => target_of(
                match output {
                    Some(o) => Some(o@),
                    None => None,
                },
                outputs.entries@,
            ) is None,
        },
{
    match output {
        Some(name) => {
            if outputs.has_name(name) {
                let mut t = String::new();
                push_str(&mut t, name);
                assert(t@ =~= name@);
                Some(t)
            } else {
                None
            }
        },
        None => match outputs.primary_name() {
            Some(name) => {
                let mut t = String::new();
                push_str(&mut t, name);
                assert(t@ =~= name@);
                Some(t)
            },
            None => None,
        },
    }
}

/// The ids of the notes put on monitor `name`, in order.
pub open spec fn ids_on(notes: Seq<NotePlacement>, name: Seq<char>) -> Seq<u128>
    decreases notes.len(),
{
    if notes.len() == 0 {
        seq![]
    } else {
        let n = notes.last();
        let head = ids_on(notes.drop_last(), name);
        match n.output {
            Some(o) => if o@ == name {
                head.push(n.id)
            } else {
                head
            },
            None => head,
        }
    }
}

/// The note is put on a monitor that is not tracked.
pub open spec fn is_orphan(n: NotePlacement, entries: Seq<OutputEntry>) -> bool {
    n.output is Some && !is_tracked(entries, n.output->0@)
}

/// The groups of stranded notes: one per disconnected monitor that some note
/// names, in name order, each with the ids of its notes in note order.
pub open spec fn orphan_groups_spec(
    groups: Seq<(String, Vec<u128>)>,
    notes: Seq<NotePlacement>,
    entries: Seq<OutputEntry>,
) -> bool {
    &&& forall|g: int|
        0 <= g < groups.len() ==> {
            &&& !is_tracked(entries, (#[trigger] groups[g]).0@)
            &&& groups[g].1@ == ids_on(notes, groups[g].0@)
            &&& groups[g].1@.len() > 0
        }
    &&& forall|a: int, b: int|
        0 <= a < b < groups.len() ==> seq_lt((#[trigger] groups[a]).0@, (#[trigger] groups[b]).0@)
    &&& forall|k: int|
        0 <= k < notes.len() && is_orphan(#[trigger] notes[k], entries) ==> exists|g: int|
            0 <= g < groups.len() && (#[trigger] groups[g]).0@ == notes[k].output->0@
}

proof fn lemma_ids_on_push(p: Seq<NotePlacement>, n: NotePlacement, y: Seq<char>)
    ensures
        ids_on(p.push(n), y) == match n.output {
            Some(o) => if o@ == y {
                ids_on(p, y).push(n.id)
            } else {
                ids_on(p, y)
            },
            None => ids_on(p, y),
        },
{
    assert(p.push(n).drop_last() =~= p);
}

proof fn lemma_ids_on_witness(p: Seq<NotePlacement>, y: Seq<char>)
    requires
        ids_on(p, y).len() > 0,
    ensures
        exists|k: int|
            0 <= k < p.len() && (#[trigger] p[k]).output is Some && p[k].output->0@ == y,
    decreases p.len(),
{
    let n = p.last();
    if n.output is Some && n.output->0@ == y {
        assert(p[p.len() - 1] == n);
    } else {
        lemma_ids_on_witness(p.drop_last(), y);
        let k = choose|k: int|
            0 <= k < p.drop_last().len() && (#[trigger] p.drop_last()[k]).output is Some
                && p.drop_last()[k].output->0@ == y;
        assert(p[k] == p.drop_last()[k]);
    }
}

fn find_group(groups: &Vec<(String, Vec<u128>)>, name: &str) -> (r: Option<usize>)
    ensures
        match r {
            Some(g) => g < groups.len() && groups@[g as int].0@ == name@,
            None => forall|h: int| 0 <= h < groups.len() ==> (#[trigger] groups@[h]).0@ != name@,
        },
{
    let mut g: usize = 0;
    while g < groups.len()
        invariant
            g <= groups.len(),
            forall|h: int| 0 <= h < g ==> (#[trigger] groups@[h]).0@ != name@,
        decreases groups.len() - g,
    {
        if str_eq(groups[g].0.as_str(), name) {
            return Some(g);
        }
        g += 1;
    }
    None
}

/// Notes grouped by disconnected monitor, in monitor-name order.
pub fn orphan_groups(notes: &Vec<NotePlacement>, outputs: &Outputs) -> (groups: Vec<
    (String, Vec<u128>),
>)
    ensures
        orphan_groups_spec(groups@, notes@, outputs.entries@),
{
    let mut groups: Vec<(String, Vec<u128>)> = Vec::new();
    let mut i: usize = 0;
    while i < notes.len()
        invariant
            i <= notes.len(),
            orphan_groups_spec(groups@, notes@.take(i as int), outputs.entries@),
        decreases notes.len() - i,
    {
        let ghost p = notes@.take(i as int);
        let ghost before = groups@;
        let n = &notes[i];
        proof {
            assert(notes@.take(i + 1) =~= p.push(*n));
            assert forall|y: Seq<char>| #[trigger] ids_on(p.push(*n), y) == match n.output {
                Some(o) => if o@ == y {
                    ids_on(p, y).push(n.id)
                } else {
                    ids_on(p, y)
                },
                None => ids_on(p, y),
            } by {
                lemma_ids_on_push(p, *n, y);
            }
        }
        match &n.output {
            None => {
                assert forall|k: int|
                    0 <= k < i + 1 && is_orphan(#[trigger] notes@.take(i + 1)[k], outputs.entries@) implies exists|g: int|
                    0 <= g < groups@.len() && (#[trigger] groups@[g]).0@ == notes@.take(i + 1)[k].output->0@ by {
                    assert(k < i);
                    assert(notes@.take(i + 1)[k] == p[k]);
                }
            },
            Some(name) => {
                if outputs.has_name(name.as_str()) {
                    assert forall|k: int|
                        0 <= k < i + 1 && is_orphan(#[trigger] notes@.take(i + 1)[k], outputs.entries@) implies exists|g: int|
                        0 <= g < groups@.len() && (#[trigger] groups@[g]).0@ == notes@.take(i + 1)[k].output->0@ by {
                        assert(k < i);
                        assert(notes@.take(i + 1)[k] == p[k]);
                    }
                } else {
                    // Look for the group of this monitor.
                    let found_at = find_group(&groups, name.as_str());
                    let found = found_at.is_some();
                    let g: usize = match found_at {
                        Some(g) => g,
                        None => 0,
                    };
                    if found {
                        let (gname, mut ids) = groups.remove(g);
                        ids.push(n.id);
                        groups.insert(g, (gname, ids));
                        proof {
                            assert forall|h: int|
                                0 <= h < groups@.len() && h != g implies #[trigger] groups@[h]
                                == before[h] by {}
                            assert forall|h: int| 0 <= h < groups@.len() implies {
                                &&& !is_tracked(outputs.entries@, (#[trigger] groups@[h]).0@)
                                &&& groups@[h].1@ == ids_on(notes@.take(i + 1), groups@[h].0@)
                                &&& groups@[h].1@.len() > 0
                            } by {
                                let q = notes@.take(i + 1);
                                if h == g {
                                    assert(groups@[h].1@ == before[h].1@.push(n.id));
                                    assert(ids_on(q, name@) == ids_on(p, name@).push(n.id));
                                } else {
                                    if before[h].0@ == name@ {
                                        lemma_lt_irreflexive(name@);
                                        if h < g {
                                            assert(seq_lt(before[h].0@, before[g as int].0@));
                                        } else {
                                            assert(seq_lt(before[g as int].0@, before[h].0@));
                                        }
                                    }
                                    assert(groups@[h] == before[h]);
                                    assert(ids_on(q, before[h].0@) == ids_on(p, before[h].0@));
                                }
                            }
                            assert forall|k: int|
                                0 <= k < i + 1 && is_orphan(#[trigger] notes@.take(i + 1)[k], outputs.entries@) implies exists|h: int|
                                0 <= h < groups@.len() && (#[trigger] groups@[h]).0@ == notes@.take(i + 1)[k].output->0@ by {
                                if k == i {
                                    assert(groups@[g as int].0@ == name@);
                                } else {
                                    assert(notes@.take(i + 1)[k] == p[k]);
                                    let h = choose|h: int|
                                        0 <= h < before.len() && (#[trigger] before[h]).0@ == p[k].output->0@;
                                    assert(groups@[h].0@ == before[h].0@);
                                }
                            }
                        }
                    } else {
                        // A new monitor: it goes where the name order puts it.
                        proof {
                            if ids_on(p, name@).len() > 0 {
                                lemma_ids_on_witness(p, name@);
                                let k = choose|k: int|
                                    0 <= k < p.len() && (#[trigger] p[k]).output is Some
                                        && p[k].output->0@ == name@;
                                assert(is_orphan(p[k], outputs.entries@));
                                let h = choose|h: int|
                                    0 <= h < before.len() && (#[trigger] before[h]).0@ == p[k].output->0@;
                                assert(false);
                            }
                        }
                        let nv = chars_of(name.as_str());
                        let mut pos: usize = 0;
                        while pos < groups.len() && !chars_lt(&nv, &chars_of(groups[pos].0.as_str()))
                            invariant
                                pos <= groups.len(),
                                groups@ == before,
                                nv@ == name@,
                                forall|h: int| 0 <= h < groups@.len() ==> (#[trigger] groups@[h]).0@ != name@,
                                forall|h: int| 0 <= h < pos ==> seq_lt((#[trigger] groups@[h]).0@, name@),
                            decreases groups.len() - pos,
                        {
                            proof {
                                lemma_lt_total(name@, groups@[pos as int].0@);
                            }
                            pos += 1;
                        }
                        let mut ids: Vec<u128> = Vec::new();
                        ids.push(n.id);
                        let mut gname = String::new();
                        push_str(&mut gname, name.as_str());
                        assert(gname@ =~= name@);
                        groups.insert(pos, (gname, ids));
                        proof {
                            assert(ids@ =~= ids_on(p, name@).push(n.id));
                            assert forall|a: int, b: int|
                                0 <= a < b < groups@.len() implies seq_lt((#[trigger] groups@[a]).0@, (#[trigger] groups@[b]).0@) by {
                                if b == pos {
                                    assert(groups@[a] == before[a]);
                                } else if a == pos {
                                    assert(groups@[b] == before[b - 1]);
                                    assert(seq_lt(name@, before[pos as int].0@));
                                    if b - 1 > pos {
                                        assert(seq_lt(before[pos as int].0@, before[b - 1].0@));
                                        lemma_lt_transitive(name@, before[pos as int].0@, before[b - 1].0@);
                                    }
                                } else {
                                    let oa = if a < pos { a } else { a - 1 };
                                    let ob = if b < pos { b } else { b - 1 };
                                    assert(groups@[a] == before[oa]);
                                    assert(groups@[b] == before[ob]);
                                }
                            }
                            assert forall|h: int| 0 <= h < groups@.len() implies {
                                &&& !is_tracked(outputs.entries@, (#[trigger] groups@[h]).0@)
                                &&& groups@[h].1@ == ids_on(notes@.take(i + 1), groups@[h].0@)
                                &&& groups@[h].1@.len() > 0
                            } by {
                                if h != pos {
                                    let oh = if h < pos { h } else { h - 1 };
                                    assert(groups@[h] == before[oh]);
                                }
                            }
                            assert forall|k: int|
                                0 <= k < i + 1 && is_orphan(#[trigger] notes@.take(i + 1)[k], outputs.entries@) implies exists|h: int|
                                0 <= h < groups@.len() && (#[trigger] groups@[h]).0@ == notes@.take(i + 1)[k].output->0@ by {
                                if k == i {
                                    assert(groups@[pos as int].0@ == name@);
                                } else {
                                    assert(notes@.take(i + 1)[k] == p[k]);
                                    let h = choose|h: int|
                                        0 <= h < before.len() && (#[trigger] before[h]).0@ == p[k].output->0@;
                                    let nh = if h < pos { h } else { h + 1 };
                                    assert(groups@[nh] == before[h]);
                                }
                            }
                        }
                    }
                }
            },
        }
        i += 1;
    }
    assert(notes@.take(notes.len() as int) =~= notes@);
    groups
}

/// Some note is stranded on a monitor that is not connected.
pub open spec fn has_orphans(notes: Seq<NotePlacement>, entries: Seq<OutputEntry>) -> bool {
    exists|k: int| 0 <= k < notes.len() && is_orphan(#[trigger] notes[k], entries)
}

/// Whether the rescue board stays open: while the monitor it is shown on (if
/// it names one) is connected and some note is still stranded.
pub fn board_stays_open(board_output: Option<&str>, notes: &Vec<NotePlacement>, outputs: &Outputs) -> (r: bool)
    ensures
        r == ((match board_output {
            Some(o) => is_tracked(outputs.entries@, o@),
            None => true,
        }) && has_orphans(notes@, outputs.entries@)),
{
    if let Some(name) = board_output {
        if !outputs.has_name(name) {
            return false;
        }
    }
    let groups = orphan_groups(notes, outputs);
    if groups.len() > 0 {
        proof {
            let name = groups@[0].0@;
            lemma_ids_on_witness(notes@, name);
            let k = choose|k: int|
                0 <= k < notes@.len() && (#[trigger] notes@[k]).output is Some
                    && notes@[k].output->0@ == name;
            assert(is_orphan(notes@[k], outputs.entries@));
        }
        true
    } else {
        proof {
            if has_orphans(notes@, outputs.entries@) {
                let k = choose|k: int|
                    0 <= k < notes@.len() && is_orphan(#[trigger] notes@[k], outputs.entries@);
                assert(is_orphan(notes@[k], outputs.entries@));
            }
        }
        false
    }
}

/// The position of the first monitor called `name`, looking from `from` on.
pub open spec fn first_named(entries: Seq<OutputEntry>, name: Seq<char>, from: int) -> Option<int>
    decreases entries.len() - from,
{
    if from < 0 || from >= entries.len() {
        None
    } else if entries[from].name@ == name {
        Some(from)
    } else {
        first_named(entries, name, from + 1)
    }
}

/// The surface a note renders on: the raised or the main surface of the
/// first monitor called like its target.
pub open spec fn surface_of(
    output: Option<Seq<char>>,
    raised: bool,
    entries: Seq<OutputEntry>,
) -> Option<u64> {
    match target_of(output, entries) {
        None => None,
        Some(name) => match first_named(entries, name, 0) {
            None => None,
            Some(i) => if raised {
                entries[i].top_surface
            } else {
                Some(entries[i].surface_id)
            },
        },
    }
}

/// The surface a note is currently rendered on, given whether it is raised.
pub fn note_surface(output: Option<&str>, raised: bool, outputs: &Outputs) -> (surface: Option<u64>)
    ensures
        surface == surface_of(
            match output {
                Some(o) => Some(o@),
                None => None,
            },
            raised,
            outputs.entries@,
        ),
{
    let target = match target_output(output, outputs) {
        Some(t) => t,
        None => {
            return None;
        },
    };
    let ghost name = target@;
    let mut i: usize = 0;
    while i < outputs.entries.len()
        invariant
            i <= outputs.entries.len(),
            name == target@,
            target_of(
                match output {
                    Some(o) => Some(o@),
                    None => None,
                },
                outputs.entries@,
            ) == Some(name),
            first_named(outputs.entries@, name, i as int) == first_named(outputs.entries@, name, 0),
        decreases outputs.entries.len() - i,
    {
        if str_eq(outputs.entries[i].name.as_str(), target.as_str()) {
            assert(first_named(outputs.entries@, name, i as int) == Some(i as int));
            return if raised {
                outputs.entries[i].top_surface
            } else {
                Some(outputs.entries[i].surface_id)
            };
        }
        assert(first_named(outputs.entries@, name, i as int) == first_named(
            outputs.entries@,
            name,
            i + 1,
        ));
        i += 1;
    }
    assert(first_named(outputs.entries@, name, i as int) is None);
    None
}

/// When a monitor appears, every note put on no monitor is put on it.
pub fn place_unplaced(notes: &mut Vec<NotePlacement>, name: &str)
    ensures
        final(notes).len() == old(notes).len(),
        forall|i: int|
            0 <= i < old(notes).len() ==> {
                &&& (#[trigger] final(notes)@[i]).id == old(notes)@[i].id
                &&& match old(notes)@[i].output {
                    None => final(notes)@[i].output matches Some(o) && o@ == name@,
                    Some(o) => final(notes)@[i].output == Some(o),
                }
            },
{
    let mut i: usize = 0;
    while i < notes.len()
        invariant
            i <= notes.len(),
            notes.len() == old(notes).len(),
            forall|j: int| i <= j < notes.len() ==> #[trigger] notes@[j] == old(notes)@[j],
            forall|j: int|
                0 <= j < i ==> {
                    &&& (#[trigger] notes@[j]).id == old(notes)@[j].id
                    &&& match old(notes)@[j].output {
                        None => notes@[j].output matches Some(o) && o@ == name@,
                        Some(o) => notes@[j].output == Some(o),
                    }
                },
        decreases notes.len() - i,
    {
        if notes[i].output.is_none() {
            let mut placed = String::new();
            push_str(&mut placed, name);
            let id = notes[i].id;
            notes.set(i, NotePlacement { id, output: Some(placed) });
        }
        i += 1;
    }
}

} // verus!
