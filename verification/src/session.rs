//! The runtime state of notes on screen: which note is edited, which are
//! pinned above windows, and the two-step delete confirmation.

use vstd::prelude::*;

verus! {

/// Whether a note renders on the raised surface: while edited, or when
/// pinned, unless a pending move keeps it where it was.
pub open spec fn is_raised(editing: bool, pinned: bool, raised_override: Option<bool>) -> bool {
    editing || match raised_override {
        Some(r) => r,
        None => pinned,
    }
}

/// The raised state a note wants, ignoring any pending move.
pub open spec fn wants_raised(pinned: bool, editing: bool) -> bool {
    pinned || editing
}

/// Whether a note renders on the raised surface: either explicitly pinned, or
/// temporarily while it is being edited.
pub fn note_is_raised(editing: bool, pinned: bool, raised_override: Option<bool>) -> (r: bool)
    ensures
        r == is_raised(editing, pinned, raised_override),
        editing ==> r,
        !editing && raised_override is None ==> r == pinned,
        !editing && raised_override is Some ==> r == raised_override->0,
{
    editing || match raised_override {
        Some(r) => r,
        None => pinned,
    }
}

/// The raised state a note wants, ignoring any deferral in progress.
pub fn note_wants_raised(pinned: bool, editing: bool) -> (r: bool)
    ensures
        r == wants_raised(pinned, editing),
        editing ==> r,
        pinned ==> r,
        !pinned && !editing ==> !r,
{
    pinned || editing
}

/// Pin or unpin a note: the new pin flag and pending move. While the pointer
/// is over the note, a change of surface waits until it leaves (moving a
/// surface under a still pointer would lose the next click).
pub fn toggle_pin(pinned: bool, editing: bool, raised_override: Option<bool>, cursor_over: bool) -> (r: (
    bool,
    Option<bool>,
))
    ensures
        r.0 == !pinned,
        r.1 == if wants_raised(!pinned, editing) != is_raised(editing, pinned, raised_override)
            && cursor_over {
            Some(is_raised(editing, pinned, raised_override))
        } else {
            None
        },
{
    let was_raised = note_is_raised(editing, pinned, raised_override);
    let new_pinned = !pinned;
    let deferred = if note_wants_raised(new_pinned, editing) != was_raised && cursor_over {
        Some(was_raised)
    } else {
        None
    };
    (new_pinned, deferred)
}

/// After a pin toggle the note stays on its surface while the pointer is over
/// it, and is on the surface it wants otherwise.
pub proof fn lemma_pin_toggle_surface(
    pinned: bool,
    editing: bool,
    raised_override: Option<bool>,
    cursor_over: bool,
)
    ensures
        ({
            let was = is_raised(editing, pinned, raised_override);
            let new_override = if wants_raised(!pinned, editing) != was && cursor_over {
                Some(was)
            } else {
                None
            };
            is_raised(editing, !pinned, new_override) == if cursor_over {
                was
            } else {
                wants_raised(!pinned, editing)
            }
        }),
{
}

/// The outcome of a delete request on note `index`: whether it is deleted
/// now, and which notes ask for confirmation afterwards.
pub open spec fn delete_step(confirm: Seq<bool>, index: int) -> (bool, Seq<bool>) {
    if confirm[index] {
        (true, confirm)
    } else {
        (false, Seq::new(confirm.len(), |j: int| j == index))
    }
}

/// A delete request on note `index`: the first asks for confirmation (and
/// withdraws any other pending one), the second, on a note already asking,
/// deletes it. Returns whether to delete now.
pub fn delete_request(confirm: &mut Vec<bool>, index: usize) -> (delete_now: bool)
    requires
        index < old(confirm).len(),
    ensures
        (delete_now, final(confirm)@) == delete_step(old(confirm)@, index as int),
{
    if confirm[index] {
        return true;
    }
    let mut j: usize = 0;
    while j < confirm.len()
        invariant
            j <= confirm.len(),
            confirm.len() == old(confirm).len(),
            forall|k: int| 0 <= k < j ==> confirm@[k] == (k == index),
        decreases confirm.len() - j,
    {
        confirm.set(j, j == index);
        j += 1;
    }
    assert(confirm@ =~= Seq::new(old(confirm)@.len(), |j: int| j == index));
    false
}

/// Two delete requests in a row on the same note delete it; the first one
/// deletes only a note that already asked for confirmation.
pub proof fn lemma_delete_needs_two(confirm: Seq<bool>, index: int)
    requires
        0 <= index < confirm.len(),
    ensures
        delete_step(confirm, index).0 == confirm[index],
        delete_step(delete_step(confirm, index).1, index).0,
{
}

/// A change of which note is edited.
#[derive(Debug, Clone, Copy, PartialEq, Eq, Structural)]
pub enum EditAction {
    /// Select a note: any other note being edited closes.
    Select(usize),
    /// Double-click a note: close its editor if open, else close every other
    /// editor and open it.
    Toggle(usize),
    /// Leave edit mode everywhere.
    ExitAll,
}

/// Which notes are edited after `action`.
pub open spec fn edited_after(editing: Seq<bool>, action: EditAction) -> Seq<bool> {
    match action {
        EditAction::Select(i) => Seq::new(editing.len(), |j: int| j == i && editing[j]),
        EditAction::Toggle(i) => if 0 <= i < editing.len() && editing[i as int] {
            Seq::new(editing.len(), |j: int| false)
        } else {
            Seq::new(editing.len(), |j: int| j == i)
        },
        EditAction::ExitAll => Seq::new(editing.len(), |j: int| false),
    }
}

/// Apply `action` to the edit flags of the notes; returns, in order, the
/// notes whose editor closed (their edits are saved).
pub fn apply_edit(editing: &mut Vec<bool>, action: EditAction) -> (closed: Vec<usize>)
    requires
        match action {
            EditAction::Select(i) | EditAction::Toggle(i) => i < old(editing).len(),
            EditAction::ExitAll => true,
        },
    ensures
        final(editing)@ == edited_after(old(editing)@, action),
        final(editing).len() == old(editing).len(),
        // Selecting opens no editor: it only closes the others.
        forall|j: int|
            0 <= j < old(editing).len() && action is Select ==> (#[trigger] final(editing)@[j]
                ==> old(editing)@[j]) && (j != action->Select_0 ==> !final(editing)@[j]),
        // A toggle flips its note and closes every other.
        forall|j: int|
            0 <= j < old(editing).len() && action is Toggle ==> #[trigger] final(editing)@[j] == (
            j == action->Toggle_0 && !old(editing)@[j]),
        forall|j: int|
            0 <= j < old(editing).len() && action is ExitAll ==> !#[trigger] final(editing)@[j],
        forall|k: int| 0 <= k < closed.len() ==> closed@[k] < old(editing).len(),
        forall|k: int, l: int| 0 <= k < l < closed.len() ==> closed@[k] < closed@[l],
        forall|j: int|
            0 <= j < old(editing).len() ==> (closed@.contains(j as usize) <==> (old(editing)@[j]
                && !final(editing)@[j])),
{
    let keep: Option<usize> = match action {
        EditAction::Select(i) => Some(i),
        EditAction::Toggle(_) => None,
        EditAction::ExitAll => None,
    };
    let mut closed: Vec<usize> = Vec::new();
    let mut j: usize = 0;
    while j < editing.len()
        invariant
            j <= editing.len(),
            editing.len() == old(editing).len(),
            forall|k: int| j <= k < editing.len() ==> editing@[k] == old(editing)@[k],
            forall|k: int|
                0 <= k < j ==> editing@[k] == (old(editing)@[k] && keep == Some(k as usize)),
            forall|k: int| 0 <= k < closed.len() ==> closed@[k] < j,
            forall|k: int, l: int| 0 <= k < l < closed.len() ==> closed@[k] < closed@[l],
            forall|k: int|
                0 <= k < j ==> (closed@.contains(k as usize) <==> (old(editing)@[k] && keep != Some(
                    k as usize,
                ))),
        decreases editing.len() - j,
    {
        if editing[j] && keep != Some(j) {
            let ghost before = closed@;
            closed.push(j);
            editing.set(j, false);
            assert forall|k: int|
                0 <= k < j + 1 implies (closed@.contains(k as usize) <==> (old(editing)@[k] && keep
                != Some(k as usize))) by {
                if k == j {
                    assert(closed@[closed.len() - 1] == j);
                } else {
                    if closed@.contains(k as usize) {
                        let t = choose|t: int| 0 <= t < closed.len() && closed@[t] == k as usize;
                        assert(t < before.len());
                        assert(before[t] == k as usize);
                    }
                    if before.contains(k as usize) {
                        let t = choose|t: int| 0 <= t < before.len() && before[t] == k as usize;
                        assert(closed@[t] == k as usize);
                    }
                }
            }
        } else {
            assert(!closed@.contains(j as usize));
        }
        j += 1;
    }
    if let EditAction::Toggle(i) = action {
        let was_editing = closed_contains(&closed, i);
        if !was_editing {
            editing.set(i, true);
        }
    }
    assert(editing@ =~= edited_after(old(editing)@, action));
    closed
}

fn closed_contains(closed: &Vec<usize>, i: usize) -> (r: bool)
    ensures
        r == closed@.contains(i),
{
    let mut k: usize = 0;
    while k < closed.len()
        invariant
            k <= closed.len(),
            forall|t: int| 0 <= t < k ==> closed@[t] != i,
        decreases closed.len() - k,
    {
        if closed[k] == i {
            return true;
        }
        k += 1;
    }
    false
}

/// At most one note is edited after any change of edit state.
pub proof fn lemma_single_editor(editing: Seq<bool>, action: EditAction)
    ensures
        forall|a: int, b: int|
            0 <= a < b < editing.len() ==> !(edited_after(editing, action)[a] && edited_after(
                editing,
                action,
            )[b]),
{
}

/// What happens to the click catchers (the overlays that end editing when
/// the user clicks elsewhere).
#[derive(Clone, Copy, Debug, PartialEq, Eq, Structural)]
pub enum CatcherStep {
    Nothing,
    /// Destroy every catcher.
    RemoveAll,
    /// Destroy them and create one per monitor again.
    Rebuild,
    /// Keep them and update their input regions.
    Refresh,
}

/// After every update: the catchers go away once no note is edited.
pub fn catchers_after_update(editing: bool, catchers: usize) -> (step: CatcherStep)
    ensures
        step == if !editing && catchers > 0 {
            CatcherStep::RemoveAll
        } else {
            CatcherStep::Nothing
        },
{
    if editing || catchers == 0 {
        CatcherStep::Nothing
    } else {
        CatcherStep::RemoveAll
    }
}

/// After the edited note moved or was resized: one catcher per monitor while
/// a note is edited, none otherwise.
pub fn catchers_after_move(editing: bool, catchers: usize, outputs: usize) -> (step: CatcherStep)
    ensures
        step == if !editing {
            if catchers > 0 {
                CatcherStep::RemoveAll
            } else {
                CatcherStep::Nothing
            }
        } else if catchers != outputs {
            CatcherStep::Rebuild
        } else {
            CatcherStep::Refresh
        },
{
    if !editing {
        return catchers_after_update(editing, catchers);
    }
    if catchers != outputs {
        CatcherStep::Rebuild
    } else {
        CatcherStep::Refresh
    }
}

/// A note being edited is always raised, and wants to be, whatever its pin
/// flag and pending move; a note neither edited nor pinned does not want to
/// be raised.
pub proof fn lemma_editing_raises(pinned: bool, raised_override: Option<bool>)
    ensures
        is_raised(true, pinned, raised_override),
        wants_raised(pinned, true),
        wants_raised(true, false),
        !wants_raised(false, false),
        is_raised(false, pinned, None) == pinned,
{
}

/// A select never opens an editor, and a toggle opens at most the toggled
/// note.
pub proof fn lemma_select_opens_nothing(editing: Seq<bool>, i: usize)
    ensures
        forall|j: int|
            0 <= j < editing.len() ==> (#[trigger] edited_after(editing, EditAction::Select(i))[j]
                ==> editing[j]),
        forall|j: int|
            0 <= j < editing.len() && j != i ==> !#[trigger] edited_after(
                editing,
                EditAction::Toggle(i),
            )[j],
{
}

} // verus!
