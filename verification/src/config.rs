//! Configuration values and the choices made from them: which monitors get
//! notes, and on which layer-shell layers the note surfaces sit.

use vstd::prelude::*;

use crate::text::{chars_of, range_eq};

verus! {

/// Which monitors to render notes on, when not given by name.
#[derive(Debug, Clone, Copy, PartialEq, Eq, Structural)]
pub enum OutputsMode {
    All,
    Active,
}

/// Which monitors to render notes on.
#[derive(Debug, Clone, PartialEq, Eq)]
pub enum Outputs {
    Mode(OutputsMode),
    /// Monitors whose name contains one of these strings.
    Targets(Vec<String>),
}

impl Default for Outputs {
    fn default() -> (o: Self)
        ensures
            o == Outputs::Mode(OutputsMode::All),
    {
        Outputs::Mode(OutputsMode::All)
    }
}

/// Layer-shell layer, from the bottom of the stack to the top.
#[derive(Debug, Clone, Copy, PartialEq, Eq, Structural)]
pub enum Layer {
    Background,
    Bottom,
    Top,
    Overlay,
}

impl Default for Layer {
    fn default() -> (l: Self)
        ensures
            l == Layer::Bottom,
    {
        Layer::Bottom
    }
}

/// The height of a layer in the stack; normal windows sit between `Bottom`
/// and `Top`.
pub open spec fn layer_rank(l: Layer) -> int {
    match l {
        Layer::Background => 0,
        Layer::Bottom => 1,
        Layer::Top => 2,
        Layer::Overlay => 3,
    }
}

/// Theme colours, as `#rrggbb` or `#rgb` strings.
#[derive(Debug, Clone)]
pub struct ThemeConfig {
    pub text: String,
    pub muted: String,
    pub accent: String,
    pub border: String,
    pub button_bg: String,
}

impl Default for ThemeConfig {
    fn default() -> (t: Self)
        ensures
            t.text@ == "#cdd6f4"@,
            t.muted@ == "#7f849c"@,
            t.accent@ == "#89b4fa"@,
            t.border@ == "#45475a"@,
            t.button_bg@ == "#313244"@,
    {
        ThemeConfig {
            text: "#cdd6f4".to_owned(),
            muted: "#7f849c".to_owned(),
            accent: "#89b4fa".to_owned(),
            border: "#45475a".to_owned(),
            button_bg: "#313244".to_owned(),
        }
    }
}

/// `name` holds `part` as a contiguous substring (`str::contains`).
pub open spec fn contains_sub(name: Seq<char>, part: Seq<char>) -> bool {
    exists|i: int| 0 <= i <= name.len() - part.len() && #[trigger] name.subrange(i, i + part.len()) == part
}

/// Whether a monitor called `name` is selected by `outputs`.
pub open spec fn output_selected(outputs: Outputs, name: Seq<char>) -> bool {
    match outputs {
        Outputs::Mode(_) => true,
        Outputs::Targets(targets) => some_target_in(name, targets@),
    }
}

/// Some target occurs in `name`.
pub open spec fn some_target_in(name: Seq<char>, targets: Seq<String>) -> bool {
    exists|k: int| 0 <= k < targets.len() && contains_sub(name, #[trigger] targets[k]@)
}

/// Whether `part` occurs in `name`.
pub fn contains_str(name: &Vec<char>, part: &str) -> (r: bool)
    ensures
        r == contains_sub(name@, part@),
{
    let p = chars_of(part);
    if p.len() > name.len() {
        assert forall|i: int| 0 <= i <= name@.len() - p@.len() implies #[trigger] name@.subrange(
            i,
            i + p@.len(),
        ) != p@ by {}
        return false;
    }
    let last = name.len() - p.len();
    let mut i: usize = 0;
    while i <= last
        invariant
            p@ == part@,
            last == name.len() - p.len(),
            i <= last,
            forall|j: int| 0 <= j < i ==> #[trigger] name@.subrange(j, j + p@.len()) != p@,
        decreases last - i,
    {
        if range_eq(name, i, i + p.len(), &p) {
            return true;
        }
        if i == last {
            return false;
        }
        i += 1;
    }
    false
}

/// Whether `name` (a Wayland output name) should be rendered on.
pub fn output_matches(outputs: &Outputs, name: &str) -> (r: bool)
    ensures
        r == output_selected(*outputs, name@),
{
    match outputs {
        Outputs::Mode(_) => true,
        Outputs::Targets(targets) => {
            let n = chars_of(name);
            let mut k: usize = 0;
            while k < targets.len()
                invariant
                    k <= targets.len(),
                    n@ == name@,
                    *outputs == Outputs::Targets(*targets),
                    forall|j: int| 0 <= j < k ==> !contains_sub(name@, #[trigger] targets@[j]@),
                decreases targets.len() - k,
            {
                if contains_str(&n, targets[k].as_str()) {
                    assert(contains_sub(name@, targets@[k as int]@));
                    assert(some_target_in(name@, targets@));
                    return true;
                }
                k += 1;
            }
            false
        },
    }
}

/// One step up the stack, `Overlay` staying where it is.
pub open spec fn raised_of(layer: Layer) -> Layer {
    match layer {
        Layer::Background => Layer::Bottom,
        Layer::Bottom => Layer::Top,
        Layer::Top | Layer::Overlay => Layer::Overlay,
    }
}

/// The layer of the raised surface that hosts pinned and edited notes: one
/// step above the configured layer, and `Overlay` at the top.
pub fn raised_layer(layer: Layer) -> (raised: Layer)
    ensures
        raised == raised_of(layer),
        layer_rank(raised) >= layer_rank(layer),
        layer_rank(raised) == if layer_rank(layer) < 3 {
            layer_rank(layer) + 1
        } else {
            3
        },
{
    match layer {
        Layer::Background => Layer::Bottom,
        Layer::Bottom => Layer::Top,
        Layer::Top | Layer::Overlay => Layer::Overlay,
    }
}

/// The layer after a toggle: `Top` goes back to `Bottom`, anything else
/// goes to `Top`.
pub fn toggled_layer(layer: Layer) -> (next: Layer)
    ensures
        next == if layer == Layer::Top {
            Layer::Bottom
        } else {
            Layer::Top
        },
{
    match layer {
        Layer::Top => Layer::Bottom,
        _ => Layer::Top,
    }
}

/// The input region of a monitor's main note surface.
#[derive(Debug, Clone, Copy, PartialEq, Eq, Structural)]
pub enum InputRegion {
    /// The whole surface takes input (a click on empty desktop creates a note).
    Whole,
    /// No input at all.
    Nothing,
    /// Only the notes (and the rescue button) take input; clicks elsewhere go
    /// to the windows below.
    NotesOnly,
}

/// The input region of the main surface on `layer`: a surface above normal
/// windows must not swallow their clicks.
pub fn main_surface_region(layer: Layer) -> (r: InputRegion)
    ensures
        r == match layer {
            Layer::Bottom => InputRegion::Whole,
            Layer::Background => InputRegion::Nothing,
            Layer::Top | Layer::Overlay => InputRegion::NotesOnly,
        },
        layer_rank(layer) >= 2 ==> r == InputRegion::NotesOnly,
{
    match layer {
        Layer::Bottom => InputRegion::Whole,
        Layer::Background => InputRegion::Nothing,
        Layer::Top | Layer::Overlay => InputRegion::NotesOnly,
    }
}

/// Toggling twice from `Bottom` or `Top` comes back to where it started, and
/// a toggle always lands on one of the two.
pub proof fn lemma_toggle_twice(layer: Layer)
    ensures
        (layer == Layer::Bottom || layer == Layer::Top) ==> toggled(toggled(layer)) == layer,
        toggled(layer) == Layer::Bottom || toggled(layer) == Layer::Top,
{
}

/// The toggle as a spec function.
pub open spec fn toggled(layer: Layer) -> Layer {
    if layer == Layer::Top {
        Layer::Bottom
    } else {
        Layer::Top
    }
}

/// The raised surfaces sit exactly one layer above the configured one, and on
/// `Overlay` when that is already the top.
pub proof fn lemma_raised_one_step(layer: Layer)
    ensures
        layer_rank(raised_of(layer)) == if layer_rank(layer) < 3 {
            layer_rank(layer) + 1
        } else {
            3
        },
{
}

} // verus!
