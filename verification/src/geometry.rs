//! Monitor rectangles in the compositor's global logical coordinate space.

use vstd::prelude::*;

verus! {

/// An output's rectangle in the compositor's global logical coordinate space.
#[derive(Debug, Clone, Copy, PartialEq, Eq, Structural)]
pub struct OutputRect {
    pub x: i32,
    pub y: i32,
    pub width: i32,
    pub height: i32,
}

/// What the compositor reported about one output.
#[derive(Debug, Clone, Default)]
pub struct PartialOutput {
    pub name: Option<String>,
    /// Top-left corner, from the `geometry` event.
    pub position: Option<(i32, i32)>,
    /// Size in device pixels, from the `mode` event.
    pub mode: Option<(i32, i32)>,
    /// Integer scale factor, from the `scale` event; 0 when never sent.
    pub scale: i32,
}

/// `a / b` rounded toward zero, as Rust's `/` on integers does.
pub open spec fn div_toward_zero(a: int, b: int) -> int {
    if a >= 0 {
        a / b
    } else {
        -((-a) / b)
    }
}

/// The logical rectangle of a fully described output: its position, and its
/// mode divided by its scale (at least 1).
pub open spec fn layout_of(p: PartialOutput) -> Option<(Seq<char>, OutputRect)> {
    match (p.name, p.position, p.mode) {
        (Some(name), Some((x, y)), Some((w, h))) => {
            let scale = if p.scale < 1 {
                1
            } else {
                p.scale as int
            };
            Some(
                (
                    name@,
                    OutputRect {
                        x,
                        y,
                        width: div_toward_zero(w as int, scale) as i32,
                        height: div_toward_zero(h as int, scale) as i32,
                    },
                ),
            )
        },
        _ => None,
    }
}

fn div_by_scale(a: i32, scale: i32) -> (q: i32)
    requires
        scale >= 1,
    ensures
        q as int == div_toward_zero(a as int, scale as int),
{
    if a >= 0 {
        a / scale
    } else {
        let m: u64 = (-(a as i64)) as u64;
        let q: u64 = m / (scale as u64);
        assert(q <= m) by (nonlinear_arith)
            requires
                q == m / (scale as u64),
                scale >= 1,
        ;
        -(q as i64) as i32
    }
}

/// The named logical rectangle of an output, or `None` when its name,
/// position or mode is missing.
pub fn output_layout(p: &PartialOutput) -> (r: Option<(String, OutputRect)>)
    ensures
        match r {
            Some((name, rect)) => layout_of(*p) == Some((name@, rect)),
            None => layout_of(*p) is None,
        },
{
    match (&p.name, p.position, p.mode) {
        (Some(name), Some((x, y)), Some((w, h))) => {
            let scale = if p.scale < 1 {
                1
            } else {
                p.scale
            };
            let rect = OutputRect {
                x,
                y,
                width: div_by_scale(w, scale),
                height: div_by_scale(h, scale),
            };
            Some((name.clone(), rect))
        },
        _ => None,
    }
}

/// Whether an output layout can place the monitors: some compositors report
/// every output at the same origin, and then it cannot. `origins` are the
/// outputs' positions.
pub fn layout_usable(origins: &Vec<(i32, i32)>) -> (r: bool)
    ensures
        r == (origins.len() <= 1 || exists|i: int|
            0 <= i < origins.len() && #[trigger] origins@[i] != origins@[0]),
{
    if origins.len() <= 1 {
        return true;
    }
    let first = origins[0];
    let mut i: usize = 1;
    while i < origins.len()
        invariant
            1 <= i <= origins.len(),
            first == origins@[0],
            forall|j: int| 0 <= j < i ==> #[trigger] origins@[j] == first,
        decreases origins.len() - i,
    {
        let (x, y) = origins[i];
        if x != first.0 || y != first.1 {
            return true;
        }
        i += 1;
    }
    false
}

} // verus!
