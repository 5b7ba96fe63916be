//! The pointer gestures that move and resize notes, across monitors.
//!
//! Surfaces are named by integer handles. Positions and sizes stay with the
//! caller; this module decides who owns a gesture, when it ends, and when a
//! gesture that left its surface is given a grace period to be picked up by
//! another monitor.

use vstd::prelude::*;

verus! {

/// A note being dragged by the pointer.
#[derive(Clone, Copy, Debug, PartialEq, Eq, Structural)]
pub struct DragGrab {
    /// The surface that owns the drag.
    pub window: u64,
    pub note: u128,
    /// The button was released while the pointer was off the surface (on
    /// another monitor); the drag waits to be picked up there.
    pub released: bool,
}

/// A note being resized from its corner handle.
#[derive(Clone, Copy, Debug, PartialEq, Eq, Structural)]
pub struct ResizeGrab {
    pub window: u64,
    pub note: u128,
}

/// A grace period running after the pointer left `window` mid-gesture.
#[derive(Clone, Copy, Debug, PartialEq, Eq, Structural)]
pub struct LeaveTimer {
    pub window: u64,
    pub token: u64,
}

/// The gesture state of the whole application.
#[derive(Clone, Copy, Debug, PartialEq, Eq, Structural)]
pub struct Gestures {
    pub drag: Option<DragGrab>,
    pub resize: Option<ResizeGrab>,
    pub pending_leave: Option<LeaveTimer>,
    /// The token of the most recently started grace period.
    pub leave_token: u64,
    /// The surface the pointer is over, if any.
    pub pointer_over: Option<u64>,
}

/// What the caller does after the button was released.
#[derive(Clone, Copy, Debug, PartialEq, Eq, Structural)]
pub enum ReleaseAction {
    Nothing,
    /// A drag owned by another surface ends on this one: place the note here
    /// and save it.
    FinishDragHere,
    /// A resize owned by another surface ends on this one: move the note to
    /// this monitor, keep it inside, save it.
    FinishResizeHere,
    /// Released off the owning surface: hand the note to the monitor under the
    /// pointer if the layout says which, else call `wait_for_pickup`.
    TransferOrWait,
    /// The drag ends in place: keep the note inside its monitor and save it.
    DropDrag,
    /// The resize ends: save the note.
    EndResize,
}

/// What the caller does when a grace period expires.
#[derive(Clone, Copy, Debug, PartialEq, Eq, Structural)]
pub enum LeaveAction {
    Nothing,
    /// The released drag lands on the surface the pointer is over.
    FinishDragOn(u64),
    /// The drag ends in place: keep the note inside its monitor and save it.
    DropDrag,
    /// The resize ends: save the note.
    EndResize,
}

/// What changed when the pointer moved over a surface.
#[derive(Clone, Copy, Debug, PartialEq, Eq, Structural)]
pub struct MoveOutcome {
    /// The drag came over from another surface and now belongs to this one.
    pub drag_moved: bool,
    /// ... and, its button being released already, it ends here.
    pub drag_done: bool,
    /// The resize came over from another surface and now belongs to this one.
    pub resize_moved: bool,
}

/// The drag belongs to `w`.
pub open spec fn drag_on(g: Gestures, w: u64) -> bool {
    g.drag matches Some(d) && d.window == w
}

/// A drag is in progress and belongs to a surface other than `w`.
pub open spec fn drag_elsewhere(g: Gestures, w: u64) -> bool {
    g.drag matches Some(d) && d.window != w
}

/// The resize belongs to `w`.
pub open spec fn resize_on(g: Gestures, w: u64) -> bool {
    g.resize matches Some(r) && r.window == w
}

/// A resize is in progress and belongs to a surface other than `w`.
pub open spec fn resize_elsewhere(g: Gestures, w: u64) -> bool {
    g.resize matches Some(r) && r.window != w
}

/// Some gesture is in progress.
pub open spec fn busy(g: Gestures) -> bool {
    g.drag is Some || g.resize is Some
}

/// `g` with a new grace period started for `w`.
pub open spec fn with_grace(g: Gestures, w: u64) -> Gestures {
    Gestures {
        pending_leave: Some(LeaveTimer { window: w, token: (g.leave_token + 1) as u64 }),
        leave_token: (g.leave_token + 1) as u64,
        ..g
    }
}

/// The pointer is over another surface of ours than `w`.
pub open spec fn over_other(g: Gestures, w: u64, over_ours: bool) -> bool {
    g.pointer_over matches Some(o) && o != w && over_ours
}

impl Gestures {
    /// A pending grace period is always the most recent one.
    pub open spec fn wf(self) -> bool {
        match self.pending_leave {
            Some(t) => t.token == self.leave_token,
            None => true,
        }
    }

    pub fn new() -> (g: Self)
        ensures
            g.wf(),
            g.drag is None,
            g.resize is None,
            g.pending_leave is None,
            g.leave_token == 0,
            g.pointer_over is None,
    {
        Gestures { drag: None, resize: None, pending_leave: None, leave_token: 0, pointer_over: None }
    }

    /// Start dragging `note` on `window`.
    pub fn start_drag(&mut self, window: u64, note: u128)
        requires
            old(self).wf(),
        ensures
            *final(self) == (Gestures {
                drag: Some(DragGrab { window, note, released: false }),
                ..*old(self)
            }),
            final(self).wf(),
    {
        self.drag = Some(DragGrab { window, note, released: false });
    }

    /// Start resizing `note` on `window`.
    pub fn start_resize(&mut self, window: u64, note: u128)
        requires
            old(self).wf(),
        ensures
            *final(self) == (Gestures { resize: Some(ResizeGrab { window, note }), ..*old(self) }),
            final(self).wf(),
    {
        self.resize = Some(ResizeGrab { window, note });
    }

    /// Start a grace period for `window` and return its token.
    fn start_grace(&mut self, window: u64) -> (token: u64)
        requires
            old(self).leave_token < u64::MAX,
        ensures
            token == old(self).leave_token + 1,
            *final(self) == with_grace(*old(self), window),
    {
        self.leave_token = self.leave_token + 1;
        self.pending_leave = Some(LeaveTimer { window, token: self.leave_token });
        self.leave_token
    }

    /// End the drag (e.g. after it was handed to another monitor).
    pub fn end_drag(&mut self)
        requires
            old(self).wf(),
        ensures
            *final(self) == (Gestures { drag: None, pending_leave: None, ..*old(self) }),
            final(self).wf(),
    {
        self.drag = None;
        self.pending_leave = None;
    }

    /// Forget the gestures on a deleted note.
    pub fn forget_note(&mut self, note: u128)
        requires
            old(self).wf(),
        ensures
            final(self).drag == (if old(self).drag matches Some(d) && d.note == note {
                None
            } else {
                old(self).drag
            }),
            final(self).resize == (if old(self).resize matches Some(r) && r.note == note {
                None
            } else {
                old(self).resize
            }),
            final(self).pending_leave == old(self).pending_leave,
            final(self).leave_token == old(self).leave_token,
            final(self).pointer_over == old(self).pointer_over,
            final(self).wf(),
    {
        if let Some(d) = self.drag {
            if d.note == note {
                self.drag = None;
            }
        }
        if let Some(r) = self.resize {
            if r.note == note {
                self.resize = None;
            }
        }
    }

    /// The pointer entered `window` (`ours` tells whether it is one of the
    /// note surfaces). A gesture owned by another surface gets a grace period
    /// so that a fresh motion here can take it over; returns its token.
    pub fn pointer_entered(&mut self, window: u64, ours: bool) -> (grace: Option<u64>)
        requires
            old(self).wf(),
            ours && (drag_elsewhere(*old(self), window) || resize_elsewhere(*old(self), window))
                ==> old(self).leave_token < u64::MAX,
        ensures
            final(self).wf(),
            final(self).pointer_over == Some(window),
            final(self).drag == old(self).drag,
            final(self).resize == old(self).resize,
            // Coming back over the surface that owns every gesture in progress
            // cancels a pending grace period.
            ours && (old(self).drag is Some || old(self).resize is Some) && (old(self).drag is Some
                ==> old(self).drag->0.window == window) && (old(self).resize is Some
                ==> old(self).resize->0.window == window) ==> grace is None && final(self).pending_leave is None,
            !ours ==> grace is None && final(self).pending_leave == old(self).pending_leave,
            // Entering another surface of ours while a drag is owned elsewhere
            // starts a fresh grace period for the owner.
            ours && old(self).drag is Some && old(self).drag->0.window != window ==> grace == Some(
                (old(self).leave_token + 1) as u64,
            ) && final(self).pending_leave == Some(
                LeaveTimer {
                    window: old(self).drag->0.window,
                    token: (old(self).leave_token + 1) as u64,
                },
            ),
            ({
                let g = Gestures { pointer_over: Some(window), ..*old(self) };
                if !ours {
                    grace is None && *final(self) == g
                } else if drag_elsewhere(g, window) {
                    grace == Some((g.leave_token + 1) as u64) && *final(self) == with_grace(
                        g,
                        g.drag->0.window,
                    )
                } else if resize_elsewhere(g, window) {
                    grace == Some((g.leave_token + 1) as u64) && *final(self) == with_grace(
                        g,
                        g.resize->0.window,
                    )
                } else if busy(g) {
                    grace is None && *final(self) == (Gestures { pending_leave: None, ..g })
                } else {
                    grace is None && *final(self) == g
                }
            }),
    {
        self.pointer_over = Some(window);
        if !ours {
            return None;
        }
        if let Some(d) = self.drag {
            if d.window != window {
                let t = self.start_grace(d.window);
                return Some(t);
            }
        }
        if let Some(r) = self.resize {
            if r.window != window {
                let t = self.start_grace(r.window);
                return Some(t);
            }
        }
        if self.drag.is_some() || self.resize.is_some() {
            self.pending_leave = None;
        }
        None
    }

    /// The pointer left `window`. A gesture owned by it gets a grace period
    /// to be picked up by another monitor; returns its token.
    pub fn pointer_left(&mut self, window: u64) -> (grace: Option<u64>)
        requires
            old(self).wf(),
            drag_on(*old(self), window) || resize_on(*old(self), window) ==> old(
                self,
            ).leave_token < u64::MAX,
        ensures
            final(self).wf(),
            final(self).drag == old(self).drag,
            final(self).resize == old(self).resize,
            final(self).pointer_over == if old(self).pointer_over == Some(window) {
                None
            } else {
                old(self).pointer_over
            },
            // Leaving the surface that owns a gesture starts a fresh grace
            // period for it; leaving any other surface starts none.
            ({
                let owns = (old(self).drag is Some && old(self).drag->0.window == window) || (old(
                    self,
                ).resize is Some && old(self).resize->0.window == window);
                &&& owns ==> grace == Some((old(self).leave_token + 1) as u64)
                    && final(self).leave_token == old(self).leave_token + 1
                    && final(self).pending_leave == Some(
                    LeaveTimer { window, token: (old(self).leave_token + 1) as u64 },
                )
                &&& !owns ==> grace is None && final(self).pending_leave == old(self).pending_leave
                    && final(self).leave_token == old(self).leave_token
            }),
            ({
                let g = Gestures {
                    pointer_over: if old(self).pointer_over == Some(window) {
                        None
                    } else {
                        old(self).pointer_over
                    },
                    ..*old(self)
                };
                if drag_on(g, window) || resize_on(g, window) {
                    grace == Some((g.leave_token + 1) as u64) && *final(self) == with_grace(
                        g,
                        window,
                    )
                } else {
                    grace is None && *final(self) == g
                }
            }),
    {
        if self.pointer_over == Some(window) {
            self.pointer_over = None;
        }
        let dragging = match self.drag {
            Some(d) => d.window == window,
            None => false,
        };
        let resizing = match self.resize {
            Some(r) => r.window == window,
            None => false,
        };
        if dragging || resizing {
            Some(self.start_grace(window))
        } else {
            None
        }
    }

    /// The pointer moved over `window`. A gesture owned by another surface
    /// is taken over by this one (when it is ours), and a drag whose button
    /// was already released ends here.
    pub fn pointer_moved(&mut self, window: u64, ours: bool) -> (m: MoveOutcome)
        requires
            old(self).wf(),
        ensures
            final(self).wf(),
            // Motion over a surface of ours during a gesture cancels a pending
            // grace period; motion elsewhere changes nothing.
            ours && (old(self).drag is Some || old(self).resize is Some) ==> final(self).pending_leave is None,
            !ours ==> *final(self) == *old(self),
            ({
                let g = *old(self);
                let g1 = if busy(g) { Gestures { pending_leave: None, ..g } } else { g };
                if !ours {
                    !m.drag_moved && !m.drag_done && !m.resize_moved && *final(self) == g
                } else if drag_elsewhere(g, window) && g.drag->0.released {
                    m.drag_moved && m.drag_done && !m.resize_moved && *final(self) == (
                    Gestures { drag: None, ..g1 })
                } else {
                    let d = if drag_elsewhere(g, window) {
                        Some(DragGrab { window, ..g.drag->0 })
                    } else {
                        g.drag
                    };
                    let r = if resize_elsewhere(g, window) {
                        Some(ResizeGrab { window, ..g.resize->0 })
                    } else {
                        g.resize
                    };
                    m.drag_moved == drag_elsewhere(g, window) && !m.drag_done && m.resize_moved
                        == resize_elsewhere(g, window) && *final(self) == (Gestures {
                        drag: d,
                        resize: r,
                        ..g1
                    })
                }
            }),
    {
        let mut m = MoveOutcome { drag_moved: false, drag_done: false, resize_moved: false };
        if !ours {
            return m;
        }
        if self.drag.is_some() || self.resize.is_some() {
            self.pending_leave = None;
        }
        if let Some(d) = self.drag {
            if d.window != window {
                m.drag_moved = true;
                if d.released {
                    self.drag = None;
                    m.drag_done = true;
                    return m;
                }
                self.drag = Some(DragGrab { window, note: d.note, released: false });
            }
        }
        if let Some(r) = self.resize {
            if r.window != window {
                m.resize_moved = true;
                self.resize = Some(ResizeGrab { window, note: r.note });
            }
        }
        m
    }

    /// The button was released over `window`; `outside` tells whether the
    /// last pointer position seen on it lies outside the surface (the pointer
    /// is on another monitor while the button was held).
    pub fn button_released(&mut self, window: u64, ours: bool, outside: bool) -> (a: ReleaseAction)
        requires
            old(self).wf(),
        ensures
            final(self).wf(),
            final(self).leave_token == old(self).leave_token,
            final(self).pointer_over == old(self).pointer_over,
            // Released over one of our surfaces, a drag owned by another one
            // ends there.
            ours && old(self).drag is Some && old(self).drag->0.window != window ==> a
                == ReleaseAction::FinishDragHere && final(self).drag is None
                && final(self).pending_leave is None,
            // Released on its own surface with the pointer inside it, a drag
            // ends in place (unless a resize from another surface of ours ends
            // first).
            old(self).drag is Some && old(self).drag->0.window == window && !outside && !(ours
                && old(self).resize is Some && old(self).resize->0.window != window) ==> a
                == ReleaseAction::DropDrag && final(self).drag is None,
            // Released outside its own surface, a drag is left for a hand-over.
            old(self).drag is Some && old(self).drag->0.window == window && outside && !(ours
                && old(self).resize is Some && old(self).resize->0.window != window) ==> a
                == ReleaseAction::TransferOrWait && *final(self) == *old(self),
            // Without a gesture, a release does nothing.
            old(self).drag is None && old(self).resize is None ==> a == ReleaseAction::Nothing
                && *final(self) == *old(self),
            ({
                let g = *old(self);
                if ours && drag_elsewhere(g, window) {
                    a == ReleaseAction::FinishDragHere && *final(self) == (Gestures {
                        drag: None,
                        pending_leave: None,
                        ..g
                    })
                } else if ours && resize_elsewhere(g, window) {
                    a == ReleaseAction::FinishResizeHere && *final(self) == (Gestures {
                        resize: None,
                        pending_leave: None,
                        ..g
                    })
                } else if drag_on(g, window) && outside {
                    a == ReleaseAction::TransferOrWait && *final(self) == g
                } else if drag_on(g, window) {
                    a == ReleaseAction::DropDrag && *final(self) == (Gestures {
                        drag: None,
                        pending_leave: None,
                        ..g
                    })
                } else if resize_on(g, window) {
                    a == ReleaseAction::EndResize && *final(self) == (Gestures {
                        resize: None,
                        pending_leave: None,
                        ..g
                    })
                } else {
                    a == ReleaseAction::Nothing && *final(self) == g
                }
            }),
    {
        let drag_window = match self.drag {
            Some(d) => Some(d.window),
            None => None,
        };
        let resize_window = match self.resize {
            Some(r) => Some(r.window),
            None => None,
        };
        if ours {
            if let Some(w) = drag_window {
                if w != window {
                    self.drag = None;
                    self.pending_leave = None;
                    return ReleaseAction::FinishDragHere;
                }
            }
            if let Some(w) = resize_window {
                if w != window {
                    self.resize = None;
                    self.pending_leave = None;
                    return ReleaseAction::FinishResizeHere;
                }
            }
        }
        if drag_window == Some(window) {
            if outside {
                return ReleaseAction::TransferOrWait;
            }
            self.drag = None;
            self.pending_leave = None;
            return ReleaseAction::DropDrag;
        }
        if resize_window == Some(window) {
            self.resize = None;
            self.pending_leave = None;
            return ReleaseAction::EndResize;
        }
        ReleaseAction::Nothing
    }

    /// The drag was released off its surface and no monitor could be found
    /// under the pointer: mark it released and give another monitor a grace
    /// period to pick it up. Returns the grace period's token.
    pub fn wait_for_pickup(&mut self) -> (token: u64)
        requires
            old(self).wf(),
            old(self).drag is Some,
            old(self).leave_token < u64::MAX,
        ensures
            final(self).wf(),
            token == old(self).leave_token + 1,
            final(self).drag == Some(DragGrab { released: true, ..old(self).drag->0 }),
            final(self).pending_leave == Some(
                LeaveTimer { window: old(self).drag->0.window, token },
            ),
            final(self).leave_token == token,
            *final(self) == with_grace(
                Gestures {
                    drag: Some(DragGrab { released: true, ..old(self).drag->0 }),
                    ..*old(self)
                },
                old(self).drag->0.window,
            ),
    {
        let d = self.drag.unwrap();
        self.drag = Some(DragGrab { window: d.window, note: d.note, released: true });
        self.start_grace(d.window)
    }

    /// The grace period `token` expired. `over_ours` tells whether the
    /// surface the pointer is over (`pointer_over`) is one of ours. Only the
    /// most recent grace period counts; an older one changes nothing.
    pub fn leave_expired(&mut self, token: u64, over_ours: bool) -> (a: LeaveAction)
        requires
            old(self).wf(),
        ensures
            final(self).wf(),
            token != old(self).leave_token ==> a == LeaveAction::Nothing && *final(self) == *old(
                self,
            ),
            // A due grace period ends the drag of the surface it is for, unless
            // the pointer is over another surface of ours.
            ({
                let g = *old(self);
                let due = g.pending_leave is Some && g.pending_leave->0.token == token;
                let w = g.pending_leave->0.window;
                let elsewhere_ours = over_ours && g.pointer_over is Some && g.pointer_over->0 != w;
                &&& due && g.drag is Some && g.drag->0.window == w && !elsewhere_ours ==> a
                    == LeaveAction::DropDrag && final(self).drag is None
                &&& due && g.drag is Some && g.drag->0.window == w && elsewhere_ours
                    && !g.drag->0.released ==> a == LeaveAction::Nothing && final(self).drag
                    == g.drag
                &&& due && g.drag is Some && g.drag->0.window == w && elsewhere_ours
                    && g.drag->0.released ==> a == LeaveAction::FinishDragOn(g.pointer_over->0)
                    && final(self).drag is None
                &&& due && !(g.drag is Some && g.drag->0.window == w) && g.resize is Some
                    && g.resize->0.window == w && !elsewhere_ours ==> a == LeaveAction::EndResize
                    && final(self).resize is None
                &&& due && g.resize is Some && g.resize->0.window == w && elsewhere_ours
                    ==> final(self).resize == g.resize
                &&& due ==> final(self).pending_leave is None
            }),
            ({
                let g = *old(self);
                match g.pending_leave {
                    Some(p) if p.token == token => {
                        let g1 = Gestures { pending_leave: None, ..g };
                        if drag_on(g, p.window) {
                            if g.drag->0.released && over_other(g, p.window, over_ours) {
                                a == LeaveAction::FinishDragOn(g.pointer_over->0) && *final(self)
                                    == (Gestures { drag: None, ..g1 })
                            } else if !g.drag->0.released && over_other(g, p.window, over_ours) {
                                a == LeaveAction::Nothing && *final(self) == g1
                            } else {
                                a == LeaveAction::DropDrag && *final(self) == (Gestures {
                                    drag: None,
                                    ..g1
                                })
                            }
                        } else if resize_on(g, p.window) {
                            if over_other(g, p.window, over_ours) {
                                a == LeaveAction::Nothing && *final(self) == g1
                            } else {
                                a == LeaveAction::EndResize && *final(self) == (Gestures {
                                    resize: None,
                                    ..g1
                                })
                            }
                        } else {
                            a == LeaveAction::Nothing && *final(self) == g1
                        }
                    },
                    _ => a == LeaveAction::Nothing && *final(self) == g,
                }
            }),
    {
        let p = match self.pending_leave {
            Some(p) => p,
            None => {
                return LeaveAction::Nothing;
            },
        };
        if p.token != token {
            return LeaveAction::Nothing;
        }
        self.pending_leave = None;
        let over_other = match self.pointer_over {
            Some(o) => o != p.window && over_ours,
            None => false,
        };
        if let Some(d) = self.drag {
            if d.window == p.window {
                if d.released && over_other {
                    let target = self.pointer_over.unwrap();
                    self.drag = None;
                    return LeaveAction::FinishDragOn(target);
                }
                if !d.released && over_other {
                    return LeaveAction::Nothing;
                }
                self.drag = None;
                return LeaveAction::DropDrag;
            }
        }
        if let Some(r) = self.resize {
            if r.window == p.window {
                if over_other {
                    return LeaveAction::Nothing;
                }
                self.resize = None;
                return LeaveAction::EndResize;
            }
        }
        LeaveAction::Nothing
    }
}

} // verus!
