use logalyzer::window::{clamp_window_offset, ScrollWindow, WindowRequest, WINDOW_ROWS};

#[test]
fn first_window_is_the_top_of_the_store() {
    let (w, req) = ScrollWindow::new(1000);
    assert_eq!(req, WindowRequest { offset: 0, limit: 300 });
    assert_eq!(w.offset, 0);
    assert_eq!(clamp_window_offset(0, 300, 1000), 0);
}

#[test]
fn window_near_the_end_is_moved_back() {
    assert_eq!(clamp_window_offset(900, 300, 1000), 700);
    assert_eq!(clamp_window_offset(701, 300, 1000), 700);
    assert_eq!(clamp_window_offset(700, 300, 1000), 700);
    assert_eq!(clamp_window_offset(50, 300, 100), 0);
    assert_eq!(clamp_window_offset(usize::MAX, 300, 1000), 700);
}

#[test]
fn jump_to_the_last_row() {
    let (mut w, _) = ScrollWindow::new(1000);
    w.on_rows_received();
    let req = w.move_selection_fixed(5000).unwrap();
    assert_eq!(req, WindowRequest { offset: 700, limit: WINDOW_ROWS });
    assert_eq!((w.offset, w.selection), (700, 299));
    assert!(w.loading);
    assert_eq!(w.move_selection_fixed(0), None);
    w.on_rows_received();
    let req = w.move_selection_fixed(400).unwrap();
    assert_eq!(req, WindowRequest { offset: 400, limit: WINDOW_ROWS });
    assert_eq!(w.selection, 149);
    w.on_rows_received();
    let req = w.move_selection_fixed(299).unwrap();
    assert_eq!(req.offset, 0);
    assert_eq!(w.selection, 0);
    w.on_rows_received();
    assert_eq!(w.move_selection_fixed(701).unwrap().offset, 700);
    w.on_rows_received();
    assert_eq!(w.move_selection_fixed(700).unwrap().offset, 700);
    assert_eq!(w.selection, 149);
}

#[test]
fn scrolling_down_moves_the_window_near_its_end() {
    let (mut w, _) = ScrollWindow::new(1000);
    w.on_rows_received();
    assert_eq!(w.move_selection_relative(249), None);
    assert_eq!(w.selection, 249);
    let req = w.move_selection_relative(1).unwrap();
    assert_eq!(req, WindowRequest { offset: 100, limit: 300 });
    assert_eq!(w.offset + w.selection, 250);
    assert_eq!(w.move_selection_relative(1), None);
}

#[test]
fn no_window_past_the_last_row() {
    let (mut w, _) = ScrollWindow::new(1000);
    w.on_rows_received();
    w.move_selection_fixed(999).unwrap();
    w.on_rows_received();
    assert_eq!(w.move_selection_relative(-10), None);
    assert_eq!((w.offset, w.selection), (700, 289));
}

#[test]
fn scrolling_up_moves_the_window_near_its_start() {
    let (mut w, _) = ScrollWindow::new(1000);
    w.on_rows_received();
    w.move_selection_fixed(500).unwrap();
    w.on_rows_received();
    assert_eq!((w.offset, w.selection), (500, 149));
    assert_eq!(w.move_selection_relative(-99), None);
    assert_eq!(w.selection, 50);
    let req = w.move_selection_relative(-1).unwrap();
    assert_eq!(req.offset, 400);
    assert_eq!(w.offset + w.selection, 549);
    w.on_rows_received();
    assert_eq!(w.move_selection_relative(-10_000), Some(WindowRequest { offset: 0, limit: 300 }));
    assert_eq!(w.offset + w.selection, 0);
}

#[test]
fn step_back_is_shorter_at_the_top() {
    let (mut w, _) = ScrollWindow::new(1000);
    w.on_rows_received();
    assert_eq!(w.move_selection_relative(360).unwrap().offset, 260);
    w.on_rows_received();
    assert_eq!(w.move_selection_relative(-230).unwrap().offset, 30);
    w.on_rows_received();
    assert_eq!((w.offset, w.selection), (30, 100));
    assert_eq!(w.move_selection_relative(-60), Some(WindowRequest { offset: 0, limit: 300 }));
    assert_eq!((w.offset, w.selection), (0, 70));
}

#[test]
fn selection_stops_at_the_last_row() {
    let (mut w, _) = ScrollWindow::new(10);
    w.on_rows_received();
    assert_eq!(w.move_selection_relative(100), None);
    assert_eq!(w.selection, 9);
}
