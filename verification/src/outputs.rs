//! The monitors that notes are rendered on. Each has two fullscreen layer
//! surfaces: one on the configured layer and a raised one above it for pinned
//! and edited notes. Until a real monitor is known, a single fallback entry
//! stands in.
//!
//! Outputs and surfaces are known here by integer handles; the caller creates
//! and destroys the surfaces and maps the handles to them.

use vstd::prelude::*;

use crate::config::{raised_layer, raised_of, Layer};
use crate::text::{push_str, str_eq};

verus! {

/// Name of the stand-in entry used while no monitor is known.
pub const FALLBACK_NAME: &'static str = "Fallback";

/// One monitor and its two surfaces.
#[derive(Debug, Clone)]
pub struct OutputEntry {
    pub name: String,
    /// `None` for the fallback entry.
    pub output_id: Option<u64>,
    /// Surface rendering notes on the configured layer.
    pub surface_id: u64,
    /// Surface rendering pinned/edited notes above it.
    pub top_surface: Option<u64>,
    pub logical_size: Option<(i32, i32)>,
}

/// Which of an output's two surfaces a surface handle refers to.
#[derive(Debug, Clone, Copy, PartialEq, Eq, Structural)]
pub enum SurfaceKind {
    Bottom,
    Top,
}

/// Tracks the surfaces of every monitor that notes are rendered on.
pub struct Outputs {
    pub entries: Vec<OutputEntry>,
    pub layer: Layer,
}

/// The entry shows `surface` on one of its two surfaces.
pub open spec fn shows(e: OutputEntry, surface: u64) -> bool {
    e.surface_id == surface || e.top_surface == Some(surface)
}

/// Layer for each surface, in entry order: the main surface on `layer`, the
/// raised one a step above.
pub open spec fn layer_plan(entries: Seq<OutputEntry>, layer: Layer) -> Seq<(u64, Layer)>
    decreases entries.len(),
{
    if entries.len() == 0 {
        seq![]
    } else {
        let e = entries.last();
        let head = layer_plan(entries.drop_last(), layer).push((e.surface_id, layer));
        match e.top_surface {
            Some(t) => head.push((t, raised_of(layer))),
            None => head,
        }
    }
}

/// Every surface of the entries, in order, the main one before the raised one.
pub open spec fn surfaces_of(entries: Seq<OutputEntry>) -> Seq<u64>
    decreases entries.len(),
{
    if entries.len() == 0 {
        seq![]
    } else {
        let e = entries.last();
        let head = surfaces_of(entries.drop_last()).push(e.surface_id);
        match e.top_surface {
            Some(t) => head.push(t),
            None => head,
        }
    }
}

/// The fallback entry on the given pair of surfaces.
pub open spec fn fallback_entry(e: OutputEntry, surfaces: Option<(u64, u64)>) -> bool {
    match surfaces {
        Some((surface, top)) => {
            &&& e.name@ == FALLBACK_NAME@
            &&& e.output_id is None
            &&& e.surface_id == surface
            &&& e.top_surface == Some(top)
            &&& e.logical_size is None
        },
        None => false,
    }
}

/// Some entry belongs to output `o`.
pub open spec fn has_output(entries: Seq<OutputEntry>, o: u64) -> bool {
    exists|i: int| 0 <= i < entries.len() && #[trigger] entries[i].output_id == Some(o)
}

impl Outputs {
    /// At least one entry; a fallback entry only when it is the only one;
    /// no output twice.
    pub open spec fn wf(&self) -> bool {
        &&& self.entries.len() > 0
        &&& forall|i: int|
            0 <= i < self.entries.len() && (#[trigger] self.entries@[i]).output_id is None
                ==> self.entries.len() == 1
        &&& forall|i: int, j: int|
            0 <= i < j < self.entries.len() && (#[trigger] self.entries@[i]).output_id is Some
                ==> self.entries@[i].output_id != (#[trigger] self.entries@[j]).output_id
    }

    /// The fallback entry alone, on the given surface.
    pub fn new(layer: Layer, main_surface: u64) -> (o: Self)
        ensures
            o.wf(),
            o.layer == layer,
            o.entries.len() == 1,
            o.entries@[0].name@ == FALLBACK_NAME@,
            o.entries@[0].output_id is None,
            o.entries@[0].surface_id == main_surface,
            o.entries@[0].top_surface is None,
            o.entries@[0].logical_size is None,
    {
        let mut name = String::new();
        push_str(&mut name, FALLBACK_NAME);
        let mut entries = Vec::new();
        entries.push(
            OutputEntry {
                name,
                output_id: None,
                surface_id: main_surface,
                top_surface: None,
                logical_size: None,
            },
        );
        Outputs { entries, layer }
    }

    /// The first entry showing `surface`, and which of its surfaces it is.
    pub fn position_for_surface(&self, surface: u64) -> (r: Option<(usize, SurfaceKind)>)
        ensures
            match r {
                Some((i, kind)) => {
                    &&& i < self.entries.len()
                    &&& shows(self.entries@[i as int], surface)
                    &&& forall|j: int| 0 <= j < i ==> !shows(#[trigger] self.entries@[j], surface)
                    &&& kind == if self.entries@[i as int].surface_id == surface {
                        SurfaceKind::Bottom
                    } else {
                        SurfaceKind::Top
                    }
                },
                None => forall|j: int|
                    0 <= j < self.entries.len() ==> !shows(#[trigger] self.entries@[j], surface),
            },
    {
        let mut i: usize = 0;
        while i < self.entries.len()
            invariant
                i <= self.entries.len(),
                forall|j: int| 0 <= j < i ==> !shows(#[trigger] self.entries@[j], surface),
            decreases self.entries.len() - i,
        {
            if self.entries[i].surface_id == surface {
                return Some((i, SurfaceKind::Bottom));
            }
            if self.entries[i].top_surface == Some(surface) {
                return Some((i, SurfaceKind::Top));
            }
            i += 1;
        }
        None
    }

    /// The output (and which of its surfaces) backing `surface`.
    pub fn entry_for_surface(&self, surface: u64) -> (r: Option<(&OutputEntry, SurfaceKind)>)
        ensures
            match r {
                Some((e, kind)) => exists|i: int|
                    0 <= i < self.entries.len() && *e == self.entries@[i] && shows(
                        self.entries@[i],
                        surface,
                    ) && (forall|j: int|
                        0 <= j < i ==> !shows(#[trigger] self.entries@[j], surface)) && kind == if e.surface_id
                        == surface {
                        SurfaceKind::Bottom
                    } else {
                        SurfaceKind::Top
                    },
                None => forall|j: int|
                    0 <= j < self.entries.len() ==> !shows(#[trigger] self.entries@[j], surface),
            },
    {
        match self.position_for_surface(surface) {
            Some((i, kind)) => Some((&self.entries[i], kind)),
            None => None,
        }
    }

    /// The entry backing `surface`, whichever of its surfaces it is.
    pub fn get(&self, surface: u64) -> (r: Option<&OutputEntry>)
        ensures
            match r {
                Some(e) => exists|i: int|
                    0 <= i < self.entries.len() && *e == self.entries@[i] && shows(
                        self.entries@[i],
                        surface,
                    ) && forall|j: int|
                        0 <= j < i ==> !shows(#[trigger] self.entries@[j], surface),
                None => forall|j: int|
                    0 <= j < self.entries.len() ==> !shows(#[trigger] self.entries@[j], surface),
            },
    {
        match self.position_for_surface(surface) {
            Some((i, _)) => Some(&self.entries[i]),
            None => None,
        }
    }

    /// The output backing a window, whichever of its surfaces it is.
    pub fn entry_for_window(&self, window: u64) -> (r: Option<&OutputEntry>)
        ensures
            match r {
                Some(e) => exists|i: int|
                    0 <= i < self.entries.len() && *e == self.entries@[i] && shows(
                        self.entries@[i],
                        window,
                    ) && forall|j: int|
                        0 <= j < i ==> !shows(#[trigger] self.entries@[j], window),
                None => forall|j: int|
                    0 <= j < self.entries.len() ==> !shows(#[trigger] self.entries@[j], window),
            },
    {
        self.get(window)
    }

    /// Whether a monitor of that name is tracked.
    pub fn has_name(&self, name: &str) -> (r: bool)
        ensures
            r == exists|i: int|
                0 <= i < self.entries.len() && (#[trigger] self.entries@[i]).name@ == name@,
    {
        let mut i: usize = 0;
        while i < self.entries.len()
            invariant
                i <= self.entries.len(),
                forall|j: int| 0 <= j < i ==> (#[trigger] self.entries@[j]).name@ != name@,
            decreases self.entries.len() - i,
        {
            if str_eq(self.entries[i].name.as_str(), name) {
                return true;
            }
            i += 1;
        }
        false
    }

    /// The name of the first (primary) monitor.
    pub fn primary_name(&self) -> (r: Option<&str>)
        ensures
            match r {
                Some(n) => self.entries.len() > 0 && n@ == self.entries@[0].name@,
                None => self.entries.len() == 0,
            },
    {
        if self.entries.len() > 0 {
            Some(self.entries[0].name.as_str())
        } else {
            None
        }
    }

    /// The entries that have no raised surface yet, in order.
    pub fn missing_top_surfaces(&self) -> (r: Vec<usize>)
        ensures
            forall|k: int| 0 <= k < r.len() ==> r@[k] < self.entries.len(),
            forall|k: int, l: int| 0 <= k < l < r.len() ==> r@[k] < r@[l],
            forall|k: int| 0 <= k < r.len() ==> self.entries@[#[trigger] r@[k] as int].top_surface is None,
            forall|i: int|
                0 <= i < self.entries.len() && self.entries@[i].top_surface is None ==> r@.contains(
                    i as usize,
                ),
    {
        let mut r: Vec<usize> = Vec::new();
        let mut i: usize = 0;
        while i < self.entries.len()
            invariant
                i <= self.entries.len(),
                forall|k: int| 0 <= k < r.len() ==> r@[k] < i,
                forall|k: int, l: int| 0 <= k < l < r.len() ==> r@[k] < r@[l],
                forall|k: int| 0 <= k < r.len() ==> self.entries@[#[trigger] r@[k] as int].top_surface is None,
                forall|j: int|
                    0 <= j < i && self.entries@[j].top_surface is None ==> r@.contains(j as usize),
            decreases self.entries.len() - i,
        {
            if self.entries[i].top_surface.is_none() {
                let ghost before = r@;
                r.push(i);
                assert forall|j: int|
                    0 <= j < i + 1 && self.entries@[j].top_surface is None implies r@.contains(
                    j as usize,
                ) by {
                    if j == i {
                        assert(r@[r.len() - 1] == i);
                    } else {
                        let k = choose|k: int| 0 <= k < before.len() && before[k] == j as usize;
                        assert(r@[k] == j as usize);
                    }
                }
            }
            i += 1;
        }
        r
    }

    /// Give entry `index` its raised surface.
    pub fn set_top_surface(&mut self, index: usize, surface: u64)
        requires
            index < old(self).entries.len(),
        ensures
            final(self).layer == old(self).layer,
            final(self).entries.len() == old(self).entries.len(),
            forall|i: int|
                0 <= i < old(self).entries.len() && i != index ==> final(self).entries@[i]
                    == old(self).entries@[i],
            final(self).entries@[index as int] == (OutputEntry {
                top_surface: Some(surface),
                ..old(self).entries@[index as int]
            }),
            old(self).wf() ==> final(self).wf(),
    {
        let mut e = self.entries.remove(index);
        e.top_surface = Some(surface);
        self.entries.insert(index, e);
    }

    /// The index of the entry of output `output`.
    pub fn find_output(&self, output: u64) -> (r: Option<usize>)
        ensures
            match r {
                Some(i) => i < self.entries.len() && self.entries@[i as int].output_id == Some(
                    output,
                ) && forall|j: int|
                    0 <= j < i ==> (#[trigger] self.entries@[j]).output_id != Some(output),
                None => !has_output(self.entries@, output),
            },
    {
        let mut i: usize = 0;
        while i < self.entries.len()
            invariant
                i <= self.entries.len(),
                forall|j: int| 0 <= j < i ==> (#[trigger] self.entries@[j]).output_id != Some(output),
            decreases self.entries.len() - i,
        {
            if self.entries[i].output_id == Some(output) {
                return Some(i);
            }
            i += 1;
        }
        None
    }

    /// Update the name and size of output `output`, if it is tracked.
    pub fn refresh_output(&mut self, name: String, output: u64, size: Option<(i32, i32)>) -> (found: bool)
        requires
            old(self).wf(),
        ensures
            final(self).wf(),
            final(self).layer == old(self).layer,
            found == has_output(old(self).entries@, output),
            !found ==> final(self).entries@ == old(self).entries@,
            found ==> exists|i: int|
                0 <= i < old(self).entries.len() && old(self).entries@[i].output_id == Some(output)
                    && final(self).entries@ == old(self).entries@.update(
                    i,
                    OutputEntry { name, logical_size: size, ..old(self).entries@[i] },
                ),
    {
        match self.find_output(output) {
            Some(i) => {
                let mut e = self.entries.remove(i);
                let ghost old_e = e;
                e.name = name;
                e.logical_size = size;
                self.entries.insert(i, e);
                assert(self.entries@ =~= old(self).entries@.update(
                    i as int,
                    OutputEntry { name, logical_size: size, ..old_e },
                ));
                assert forall|a: int, b: int|
                    0 <= a < b < self.entries.len() && (#[trigger] self.entries@[a]).output_id is Some
                        implies self.entries@[a].output_id != (#[trigger] self.entries@[b]).output_id by {
                    assert(self.entries@[a].output_id == old(self).entries@[a].output_id);
                    assert(self.entries@[b].output_id == old(self).entries@[b].output_id);
                }
                assert forall|a: int|
                    0 <= a < self.entries.len() && (#[trigger] self.entries@[a]).output_id is None
                        implies self.entries.len() == 1 by {
                    assert(self.entries@[a].output_id == old(self).entries@[a].output_id);
                }
                true
            },
            None => false,
        }
    }

    /// Add a monitor that is not tracked yet, with its two new surfaces. The
    /// fallback entry, if any, leaves and is returned so that its surfaces can
    /// be destroyed.
    pub fn insert_output(
        &mut self,
        name: String,
        output: u64,
        size: Option<(i32, i32)>,
        surface: u64,
        top: u64,
    ) -> (fallback: Option<OutputEntry>)
        requires
            old(self).wf(),
            !has_output(old(self).entries@, output),
        ensures
            final(self).wf(),
            final(self).layer == old(self).layer,
            ({
                let added = OutputEntry {
                    name,
                    output_id: Some(output),
                    surface_id: surface,
                    top_surface: Some(top),
                    logical_size: size,
                };
                if old(self).entries@[0].output_id is None {
                    &&& final(self).entries@ == seq![added]
                    &&& fallback == Some(old(self).entries@[0])
                } else {
                    &&& final(self).entries@ == old(self).entries@.push(added)
                    &&& fallback is None
                }
            }),
    {
        let fallback_first = self.entries[0].output_id.is_none();
        self.entries.push(
            OutputEntry {
                name,
                output_id: Some(output),
                surface_id: surface,
                top_surface: Some(top),
                logical_size: size,
            },
        );
        if fallback_first {
            let old_entry = self.entries.remove(0);
            assert(self.entries@ =~= seq![self.entries@[0]]);
            Some(old_entry)
        } else {
            assert forall|a: int, b: int|
                0 <= a < b < self.entries.len() && (#[trigger] self.entries@[a]).output_id is Some
                    implies self.entries@[a].output_id != (#[trigger] self.entries@[b]).output_id by {
                if b == self.entries.len() - 1 {
                    assert(old(self).entries@[a] == self.entries@[a]);
                    assert(self.entries@[a].output_id != Some(output));
                } else {
                    assert(old(self).entries@[a] == self.entries@[a]);
                    assert(old(self).entries@[b] == self.entries@[b]);
                }
            }
            assert forall|a: int|
                0 <= a < self.entries.len() && (#[trigger] self.entries@[a]).output_id is None
                    implies self.entries.len() == 1 by {
                if a < old(self).entries.len() {
                    assert(old(self).entries@[a] == self.entries@[a]);
                }
            }
            None
        }
    }

    /// Whether removing `output` would leave no monitor.
    pub fn is_last_output(&self, output: u64) -> (r: bool)
        ensures
            r == (self.entries.len() == 1 && self.entries@[0].output_id == Some(output)),
    {
        self.entries.len() == 1 && self.entries[0].output_id == Some(output)
    }

    /// Drop the monitor `output` and return its entry, so that its surfaces can
    /// be destroyed. When it was the last one, the fallback entry takes its
    /// place on the surfaces given.
    pub fn remove(&mut self, output: u64, fallback: Option<(u64, u64)>) -> (removed: Option<
        OutputEntry,
    >)
        requires
            old(self).wf(),
            old(self).entries.len() == 1 && old(self).entries@[0].output_id == Some(output)
                ==> fallback is Some,
        ensures
            final(self).wf(),
            final(self).layer == old(self).layer,
            match removed {
                None => !has_output(old(self).entries@, output) && final(self).entries@ == old(
                    self,
                ).entries@,
                Some(e) => exists|i: int|
                    0 <= i < old(self).entries.len() && old(self).entries@[i] == e
                        && e.output_id == Some(output) && if old(self).entries.len() == 1 {
                        &&& final(self).entries.len() == 1
                        &&& fallback_entry(final(self).entries@[0], fallback)
                    } else {
                        final(self).entries@ == old(self).entries@.remove(i)
                    },
            },
    {
        match self.find_output(output) {
            None => None,
            Some(i) => {
                let e = self.entries.remove(i);
                if self.entries.len() == 0 {
                    let (s, t) = fallback.unwrap();
                    let mut name = String::new();
                    push_str(&mut name, FALLBACK_NAME);
                    self.entries.push(
                        OutputEntry {
                            name,
                            output_id: None,
                            surface_id: s,
                            top_surface: Some(t),
                            logical_size: None,
                        },
                    );
                } else {
                    assert(old(self).entries.len() >= 2);
                    assert forall|a: int, b: int|
                        0 <= a < b < self.entries.len()
                            && (#[trigger] self.entries@[a]).output_id is Some implies self.entries@[a].output_id
                        != (#[trigger] self.entries@[b]).output_id by {
                        let oa = if a < i { a } else { a + 1 };
                        let ob = if b < i { b } else { b + 1 };
                        assert(self.entries@[a] == old(self).entries@[oa]);
                        assert(self.entries@[b] == old(self).entries@[ob]);
                    }
                    assert forall|a: int|
                        0 <= a < self.entries.len() && (#[trigger] self.entries@[a]).output_id is None
                            implies self.entries.len() == 1 by {
                        let oa = if a < i { a } else { a + 1 };
                        assert(self.entries@[a] == old(self).entries@[oa]);
                    }
                }
                Some(e)
            },
        }
    }

    /// Record the logical size of monitor `output`.
    pub fn set_logical_size(&mut self, output: u64, size: Option<(i32, i32)>)
        requires
            old(self).wf(),
        ensures
            final(self).wf(),
            final(self).layer == old(self).layer,
            !has_output(old(self).entries@, output) ==> final(self).entries@ == old(self).entries@,
            has_output(old(self).entries@, output) ==> exists|i: int|
                0 <= i < old(self).entries.len() && old(self).entries@[i].output_id == Some(output)
                    && final(self).entries@ == old(self).entries@.update(
                    i,
                    OutputEntry { logical_size: size, ..old(self).entries@[i] },
                ),
    {
        if let Some(i) = self.find_output(output) {
            let mut e = self.entries.remove(i);
            let ghost old_e = e;
            e.logical_size = size;
            self.entries.insert(i, e);
            assert(self.entries@ =~= old(self).entries@.update(
                i as int,
                OutputEntry { logical_size: size, ..old_e },
            ));
            assert forall|a: int, b: int|
                0 <= a < b < self.entries.len() && (#[trigger] self.entries@[a]).output_id is Some
                    implies self.entries@[a].output_id != (#[trigger] self.entries@[b]).output_id by {
                assert(self.entries@[a].output_id == old(self).entries@[a].output_id);
                assert(self.entries@[b].output_id == old(self).entries@[b].output_id);
            }
            assert forall|a: int|
                0 <= a < self.entries.len() && (#[trigger] self.entries@[a]).output_id is None
                    implies self.entries.len() == 1 by {
                assert(self.entries@[a].output_id == old(self).entries@[a].output_id);
            }
        }
    }

    /// Move every main surface to `layer` and every raised surface one step
    /// above it, in place: the layer of each surface, in entry order.
    pub fn apply_layer(&mut self, layer: Layer) -> (plan: Vec<(u64, Layer)>)
        ensures
            final(self).layer == layer,
            final(self).entries@ == old(self).entries@,
            plan@ == layer_plan(old(self).entries@, layer),
            // Every main surface goes to `layer`, every raised one to the
            // layer one step above, and nothing else is moved.
            forall|i: int|
                0 <= i < old(self).entries.len() ==> plan@.contains(
                    (#[trigger] old(self).entries@[i].surface_id, layer),
                ),
            forall|i: int|
                0 <= i < old(self).entries.len() && (#[trigger] old(self).entries@[i]).top_surface is Some
                    ==> plan@.contains((old(self).entries@[i].top_surface->0, raised_of(layer))),
            forall|k: int|
                0 <= k < plan.len() ==> exists|i: int|
                    0 <= i < old(self).entries.len() && ((#[trigger] plan@[k] == (
                        old(self).entries@[i].surface_id,
                        layer,
                    )) || (old(self).entries@[i].top_surface == Some(plan@[k].0) && plan@[k].1
                        == raised_of(layer))),
    {
        self.layer = layer;
        let top = raised_layer(layer);
        let mut plan: Vec<(u64, Layer)> = Vec::new();
        let mut i: usize = 0;
        while i < self.entries.len()
            invariant
                i <= self.entries.len(),
                self.entries@ == old(self).entries@,
                top == raised_of(layer),
                plan@ == layer_plan(self.entries@.take(i as int), layer),
                forall|j: int|
                    0 <= j < i ==> plan@.contains((#[trigger] self.entries@[j].surface_id, layer)),
                forall|j: int|
                    0 <= j < i && (#[trigger] self.entries@[j]).top_surface is Some
                        ==> plan@.contains((self.entries@[j].top_surface->0, top)),
                forall|k: int|
                    0 <= k < plan.len() ==> exists|j: int|
                        0 <= j < i && ((#[trigger] plan@[k] == (self.entries@[j].surface_id, layer))
                            || (self.entries@[j].top_surface == Some(plan@[k].0) && plan@[k].1
                            == top)),
            decreases self.entries.len() - i,
        {
            proof {
                assert(self.entries@.take(i + 1).drop_last() =~= self.entries@.take(i as int));
            }
            let ghost p0 = plan@;
            plan.push((self.entries[i].surface_id, layer));
            let ghost p1 = plan@;
            proof {
                assert(p1[p1.len() - 1] == (self.entries@[i as int].surface_id, layer));
                assert forall|x: (u64, Layer)| p0.contains(x) implies p1.contains(x) by {
                    let k = choose|k: int| 0 <= k < p0.len() && p0[k] == x;
                    assert(p1[k] == x);
                }
                assert forall|k: int| 0 <= k < p1.len() implies exists|j: int|
                    0 <= j < i + 1 && ((#[trigger] p1[k] == (self.entries@[j].surface_id, layer))
                        || (self.entries@[j].top_surface == Some(p1[k].0) && p1[k].1 == top)) by {
                    if k < p0.len() {
                        assert(p1[k] == p0[k]);
                    } else {
                        assert(p1[k] == (self.entries@[i as int].surface_id, layer));
                    }
                }
            }
            if let Some(t) = self.entries[i].top_surface {
                plan.push((t, top));
                let ghost p2 = plan@;
                proof {
                    assert(p2[p2.len() - 1] == (t, top));
                    assert forall|x: (u64, Layer)| p1.contains(x) implies p2.contains(x) by {
                        let k = choose|k: int| 0 <= k < p1.len() && p1[k] == x;
                        assert(p2[k] == x);
                    }
                    assert forall|k: int| 0 <= k < p2.len() implies exists|j: int|
                        0 <= j < i + 1 && ((#[trigger] p2[k] == (self.entries@[j].surface_id, layer))
                            || (self.entries@[j].top_surface == Some(p2[k].0) && p2[k].1 == top)) by {
                        if k < p1.len() {
                            assert(p2[k] == p1[k]);
                        } else {
                            assert(p2[k] == (t, top));
                        }
                    }
                }
            }
            i += 1;
        }
        assert(self.entries@.take(i as int) =~= self.entries@);
        plan
    }

    /// Replace every surface by a freshly created pair, keeping the monitors,
    /// and move to `layer`. Returns the old surfaces, to be destroyed.
    pub fn recreate_all(&mut self, layer: Layer, fresh: &Vec<(u64, u64)>) -> (old_surfaces: Vec<u64>)
        requires
            old(self).wf(),
            fresh.len() == old(self).entries.len(),
        ensures
            final(self).wf(),
            final(self).layer == layer,
            final(self).entries.len() == old(self).entries.len(),
            forall|i: int|
                0 <= i < old(self).entries.len() ==> #[trigger] final(self).entries@[i] == (OutputEntry {
                    surface_id: fresh@[i].0,
                    top_surface: Some(fresh@[i].1),
                    ..old(self).entries@[i]
                }),
            old_surfaces@ == surfaces_of(old(self).entries@),
    {
        self.layer = layer;
        let mut destroyed: Vec<u64> = Vec::new();
        let mut i: usize = 0;
        let ghost before = self.entries@;
        while i < self.entries.len()
            invariant
                i <= self.entries.len(),
                self.entries.len() == before.len(),
                fresh.len() == before.len(),
                self.layer == layer,
                forall|j: int| i <= j < before.len() ==> #[trigger] self.entries@[j] == before[j],
                forall|j: int|
                    0 <= j < i ==> #[trigger] self.entries@[j] == (OutputEntry {
                        surface_id: fresh@[j].0,
                        top_surface: Some(fresh@[j].1),
                        ..before[j]
                    }),
                destroyed@ == surfaces_of(before.take(i as int)),
            decreases self.entries.len() - i,
        {
            proof {
                assert(before.take(i + 1).drop_last() =~= before.take(i as int));
            }
            let mut e = self.entries.remove(i);
            destroyed.push(e.surface_id);
            if let Some(t) = e.top_surface {
                destroyed.push(t);
            }
            let (s, t) = fresh[i];
            e.surface_id = s;
            e.top_surface = Some(t);
            self.entries.insert(i, e);
            i += 1;
        }
        assert(before.take(i as int) =~= before);
        assert forall|a: int, b: int|
            0 <= a < b < self.entries.len() && (#[trigger] self.entries@[a]).output_id is Some
                implies self.entries@[a].output_id != (#[trigger] self.entries@[b]).output_id by {
            assert(self.entries@[a].output_id == before[a].output_id);
            assert(self.entries@[b].output_id == before[b].output_id);
        }
        assert forall|a: int|
            0 <= a < self.entries.len() && (#[trigger] self.entries@[a]).output_id is None
                implies self.entries.len() == 1 by {
            assert(self.entries@[a].output_id == before[a].output_id);
        }
        destroyed
    }
}

/// Plugging a monitor in and out again: once a real monitor is tracked,
/// adding an untracked monitor (at the end, as `insert_output` does) and then
/// removing the entry of that monitor (as `remove` does) gives back the
/// monitors as they were.
pub proof fn lemma_plug_unplug(
    before: Seq<OutputEntry>,
    added: OutputEntry,
    at: int,
    after: Seq<OutputEntry>,
)
    requires
        before.len() > 0,
        before[0].output_id is Some,
        added.output_id is Some,
        !has_output(before, added.output_id->0),
        0 <= at < before.len() + 1,
        before.push(added)[at].output_id == added.output_id,
        after == before.push(added).remove(at),
    ensures
        after == before,
{
    if at < before.len() {
        assert(before.push(added)[at] == before[at]);
        assert(has_output(before, added.output_id->0));
    }
    assert(after =~= before);
}

} // verus!
