use layernotes::config::Layer;
use layernotes::gesture::{DragGrab, Gestures, LeaveAction, LeaveTimer, ReleaseAction, ResizeGrab};
use layernotes::notes::{board_stays_open, note_surface, NotePlacement};
use layernotes::outputs::Outputs;
use layernotes::session::{catchers_after_move, catchers_after_update, CatcherStep};

#[test]
fn release_in_place_drops_the_drag() {
    let mut g = Gestures::new();
    g.start_drag(1, 7);
    assert_eq!(g.drag, Some(DragGrab { window: 1, note: 7, released: false }));
    assert_eq!(g.button_released(1, true, false), ReleaseAction::DropDrag);
    assert_eq!(g.drag, None);
    assert_eq!(g.button_released(1, true, false), ReleaseAction::Nothing);
}

#[test]
fn leaving_mid_drag_starts_a_grace_period_and_only_the_latest_counts() {
    let mut g = Gestures::new();
    g.start_drag(1, 7);
    assert_eq!(g.pointer_left(1), Some(1));
    assert_eq!(g.pending_leave, Some(LeaveTimer { window: 1, token: 1 }));
    // Entering another monitor of ours restarts the grace period.
    assert_eq!(g.pointer_entered(2, true), Some(2));
    assert_eq!(g.pointer_over, Some(2));
    // The first timer is stale.
    assert_eq!(g.leave_expired(1, true), LeaveAction::Nothing);
    assert_eq!(g.pending_leave, Some(LeaveTimer { window: 1, token: 2 }));
    // The pointer is still on one of our surfaces: the drag goes on.
    assert_eq!(g.leave_expired(2, true), LeaveAction::Nothing);
    assert_eq!(g.pending_leave, None);
    assert!(g.drag.is_some());
    // Moving there takes the drag over.
    let m = g.pointer_moved(2, true);
    assert!(m.drag_moved && !m.drag_done && !m.resize_moved);
    assert_eq!(g.drag, Some(DragGrab { window: 2, note: 7, released: false }));
}

#[test]
fn a_drag_released_off_its_monitor_is_picked_up_elsewhere() {
    let mut g = Gestures::new();
    g.start_drag(1, 7);
    assert_eq!(g.button_released(1, true, true), ReleaseAction::TransferOrWait);
    assert_eq!(g.wait_for_pickup(), 1);
    assert_eq!(g.drag, Some(DragGrab { window: 1, note: 7, released: true }));
    let m = g.pointer_moved(2, true);
    assert!(m.drag_moved && m.drag_done);
    assert_eq!(g.drag, None);
    assert_eq!(g.pending_leave, None);
}

#[test]
fn a_released_drag_lands_where_the_pointer_is_when_the_grace_ends() {
    let mut g = Gestures::new();
    g.start_drag(1, 7);
    g.button_released(1, true, true);
    let token = g.wait_for_pickup();
    assert_eq!(g.pointer_entered(3, true), Some(token + 1));
    assert_eq!(g.leave_expired(token + 1, true), LeaveAction::FinishDragOn(3));
    assert_eq!(g.drag, None);

    // Over a foreign surface the drag is simply dropped.
    let mut g = Gestures::new();
    g.start_drag(1, 7);
    let token = g.pointer_left(1).unwrap();
    assert_eq!(g.leave_expired(token, false), LeaveAction::DropDrag);
    assert_eq!(g.drag, None);
}

#[test]
fn resizes_end_on_release_or_after_the_grace_period() {
    let mut g = Gestures::new();
    g.start_resize(1, 9);
    assert_eq!(g.resize, Some(ResizeGrab { window: 1, note: 9 }));
    assert_eq!(g.button_released(2, true, false), ReleaseAction::FinishResizeHere);
    assert_eq!(g.resize, None);

    let mut g = Gestures::new();
    g.start_resize(1, 9);
    let token = g.pointer_left(1).unwrap();
    assert_eq!(g.leave_expired(token, true), LeaveAction::EndResize);
    assert_eq!(g.resize, None);

    let mut g = Gestures::new();
    g.start_resize(1, 9);
    assert_eq!(g.button_released(1, false, false), ReleaseAction::EndResize);
}

#[test]
fn a_foreign_surface_neither_takes_nor_ends_a_gesture() {
    let mut g = Gestures::new();
    g.start_drag(1, 7);
    assert_eq!(g.pointer_entered(5, false), None);
    let m = g.pointer_moved(5, false);
    assert!(!m.drag_moved && !m.drag_done && !m.resize_moved);
    assert_eq!(g.button_released(5, false, false), ReleaseAction::Nothing);
    assert_eq!(g.drag, Some(DragGrab { window: 1, note: 7, released: false }));
}

#[test]
fn deleting_a_note_forgets_its_gestures() {
    let mut g = Gestures::new();
    g.start_drag(1, 7);
    g.start_resize(1, 8);
    g.forget_note(7);
    assert_eq!(g.drag, None);
    assert!(g.resize.is_some());
    g.end_drag();
    g.forget_note(8);
    assert_eq!(g.resize, None);
}

#[test]
fn click_catchers_follow_editing() {
    assert_eq!(catchers_after_update(true, 2), CatcherStep::Nothing);
    assert_eq!(catchers_after_update(false, 2), CatcherStep::RemoveAll);
    assert_eq!(catchers_after_update(false, 0), CatcherStep::Nothing);
    assert_eq!(catchers_after_move(false, 0, 2), CatcherStep::Nothing);
    assert_eq!(catchers_after_move(false, 1, 2), CatcherStep::RemoveAll);
    assert_eq!(catchers_after_move(true, 1, 2), CatcherStep::Rebuild);
    assert_eq!(catchers_after_move(true, 2, 2), CatcherStep::Refresh);
}

#[test]
fn the_rescue_board_closes_when_nothing_is_stranded() {
    let mut outputs = Outputs::new(Layer::Bottom, 1);
    outputs.insert_output("DP-1".to_owned(), 10, None, 3, 4);
    let stranded = vec![NotePlacement { id: 1, output: Some("HDMI-A-1".to_owned()) }];
    let placed = vec![NotePlacement { id: 1, output: Some("DP-1".to_owned()) }];
    assert!(board_stays_open(Some("DP-1"), &stranded, &outputs));
    assert!(board_stays_open(None, &stranded, &outputs));
    assert!(!board_stays_open(Some("DP-2"), &stranded, &outputs));
    assert!(!board_stays_open(Some("DP-1"), &placed, &outputs));
}

#[test]
fn plugging_a_monitor_in_and_out_restores_the_others() {
    let mut outputs = Outputs::new(Layer::Bottom, 1);
    outputs.insert_output("DP-1".to_owned(), 10, Some((1920, 1080)), 3, 4);
    let before: Vec<(String, Option<u64>, u64)> =
        outputs.entries.iter().map(|e| (e.name.clone(), e.output_id, e.surface_id)).collect();
    outputs.insert_output("DP-2".to_owned(), 12, None, 5, 6);
    outputs.remove(12, None);
    let after: Vec<(String, Option<u64>, u64)> =
        outputs.entries.iter().map(|e| (e.name.clone(), e.output_id, e.surface_id)).collect();
    assert_eq!(before, after);
}

#[test]
fn a_note_renders_on_the_raised_or_main_surface_of_its_monitor() {
    let mut outputs = Outputs::new(Layer::Bottom, 1);
    outputs.insert_output("DP-1".to_owned(), 10, None, 3, 4);
    outputs.insert_output("DP-2".to_owned(), 12, None, 5, 6);
    assert_eq!(note_surface(Some("DP-2"), false, &outputs), Some(5));
    assert_eq!(note_surface(Some("DP-2"), true, &outputs), Some(6));
    // Without a monitor of its own, a note goes to the primary one.
    assert_eq!(note_surface(None, false, &outputs), Some(3));
    // A disconnected monitor has no surface.
    assert_eq!(note_surface(Some("HDMI-A-1"), true, &outputs), None);
}
