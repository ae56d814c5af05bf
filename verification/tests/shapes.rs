use lbm::barrier_shapes::blob::Blob;
use lbm::barrier_shapes::curve::Curve;
use lbm::barrier_shapes::line::Line;
use lbm::barrier_shapes::merge_shapes::{get_points_vector, merge};
use lbm::barrier_shapes::Shape;
use lbm::click_handler::{ClickHandler, ClickType};

fn holds(points: &Vec<(isize, isize, bool)>, p: (isize, isize, bool)) -> bool {
    points.iter().any(|q| *q == p)
}

#[test]
fn blob_add_keeps_latest_tag() {
    let mut b = Blob::new_empty();
    b.add(&vec![(1, 1, true), (2, 2, true), (1, 1, false)], 10, 10);
    assert!(holds(&b.points, (1, 1, false)));
    assert!(!holds(&b.points, (1, 1, true)));
    assert!(holds(&b.points, (2, 2, true)));
}

#[test]
fn blob_add_drops_out_of_bounds_points() {
    let mut b = Blob::new_empty();
    b.add(&vec![(-1, 0, true), (0, -3, true), (10, 0, true), (0, 10, true), (9, 9, true)], 10, 10);
    assert_eq!(b.points.len(), 1);
    assert!(holds(&b.points, (9, 9, true)));
}

#[test]
fn blob_join_is_idempotent() {
    let mut other = Blob::new_empty();
    other.add(&vec![(1, 2, true), (3, 4, false), (1, 2, false)], 10, 10);
    let mut once = Blob::new_empty();
    once.add(&vec![(0, 0, true)], 10, 10);
    let mut twice = Blob::new_empty();
    twice.add(&vec![(0, 0, true)], 10, 10);
    once.join(&other);
    twice.join(&other);
    twice.join(&other);
    assert_eq!(once.points, twice.points);
}

#[test]
fn blob_never_holds_both_tags() {
    let mut b = Blob::new_empty();
    b.add(&vec![(5, 5, true)], 10, 10);
    let mut c = Curve::new();
    c.erase_segment((5, 5), 10, 10);
    b.join(&c);
    for &(x, y, t) in b.points.iter() {
        assert!(!holds(&b.points, (x, y, !t)));
    }
    assert!(holds(&b.points, (5, 5, false)));
}

#[test]
fn line_rejects_out_of_bounds_endpoints() {
    assert!(Line::new((-1, 5), (3, 3), 10, 10).is_err());
    assert!(Line::new((0, 0), (10, 3), 10, 10).is_err());
    assert!(Line::new((0, -2), (3, 3), 10, 10).is_err());
    assert!(Line::new((0, 0), (3, 12), 10, 10).is_err());
    assert!(Line::new((0, 0), (3, 3), 10, 10).is_ok());
}

#[test]
fn line_erased_rejects_out_of_bounds_endpoints() {
    assert!(Line::new_erased((-1, 5), (3, 3), 10, 10).is_err());
    assert!(Line::new_erased((5, 5), (3, 30), 10, 10).is_err());
    assert!(Line::new_erased((0, 0), (3, 3), 10, 10).is_ok());
}

#[test]
fn line_error_carries_the_rejected_endpoints() {
    let e = match Line::new((-1, 5), (3, 3), 10, 10) {
        Err(e) => e,
        Ok(_) => panic!("expected a rejection"),
    };
    assert_eq!(e.end_point_1, (-1, 5));
    assert_eq!(e.end_point_2, (3, 3));
    assert_eq!(e.xdim, 10);
    assert_eq!(e.ydim, 10);
}

#[test]
fn diagonal_line_is_four_connected() {
    let l = Line::new((0, 0), (3, 3), 10, 10).unwrap();
    for k in 0..3 {
        assert!(holds(&l.points, (k, k, true)));
        assert!(holds(&l.points, (k + 1, k + 1, true)));
        // a diagonal step must be bridged by at least one elbow point
        assert!(holds(&l.points, (k, k + 1, true)) || holds(&l.points, (k + 1, k, true)));
    }
    for &(x, y, t) in l.points.iter() {
        assert!(t);
        assert!(x >= 0 && x < 10 && y >= 0 && y < 10);
    }
}

#[test]
fn erased_line_tags_absent_and_stays_in_bounds() {
    let l = Line::new_erased((2, 2), (7, 2), 10, 10).unwrap();
    assert!(holds(&l.points, (2, 2, false)));
    assert!(holds(&l.points, (7, 2, false)));
    for &(x, y, t) in l.points.iter() {
        assert!(!t);
        assert!(x >= 0 && x < 10 && y >= 0 && y < 10);
    }
}

#[test]
fn thick_erase_brush_covers_a_band() {
    let l = Line::new_erased((10, 20), (30, 20), 40, 40).unwrap();
    assert!(holds(&l.points, (20, 20, false)));
    // offset bands reach rows away from the primary stroke on both sides
    assert!(l.points.iter().any(|p| p.1 < 20));
    assert!(l.points.iter().any(|p| p.1 > 20));
    for &(x, y, t) in l.points.iter() {
        assert!(!t);
        assert!(x >= 0 && x < 40 && y >= 0 && y < 40);
    }
}

#[test]
fn curve_accumulates_segments() {
    let mut c = Curve::new();
    c.add_segment((1, 1), 10, 10);
    assert_eq!(c.points, vec![(1, 1, true)]);
    assert_eq!(c.last_point, Some((1, 1)));
    c.add_segment((4, 1), 10, 10);
    assert!(holds(&c.points, (2, 1, true)));
    assert!(holds(&c.points, (3, 1, true)));
    assert!(holds(&c.points, (4, 1, true)));
    assert_eq!(c.last_point, Some((4, 1)));
}

#[test]
fn curve_empty_clears_points_and_memory() {
    let mut c = Curve::new();
    c.add_segment((1, 1), 10, 10);
    c.empty();
    assert!(c.is_empty());
    assert_eq!(c.last_point, None);
}

#[test]
fn negate_inverts_every_tag() {
    let mut c = Curve::new();
    c.add_segment((2, 2), 10, 10);
    let b = c.negate();
    assert_eq!(b.points, vec![(2, 2, false)]);
}

#[test]
fn merge_resolves_conflicts_latest_first() {
    let mut a = Curve::new();
    a.add_segment((3, 3), 10, 10);
    let mut b = Curve::new();
    b.erase_segment((3, 3), 10, 10);
    let m = merge(&a, &b);
    assert_eq!(m.points, vec![(3, 3, false)]);
}

#[test]
fn points_vector_packs_index_then_value() {
    let mut b = Blob::new_empty();
    b.add(&vec![(2, 3, true), (4, 0, false)], 10, 10);
    let words = get_points_vector(&b, 10);
    assert_eq!(words, vec![32, 1, 4, 0]);
}

#[test]
fn validate_click_wraps_and_clamps() {
    let h = ClickHandler::new(100, 50);
    assert_eq!(h.validate_click((-1, 5)), (99, 5));
    assert_eq!(h.validate_click((150, 5)), (99, 5));
    assert_eq!(h.validate_click((40, -3)), (40, 47));
    assert_eq!(h.validate_click((40, 60)), (40, 49));
    assert_eq!(h.validate_click((17, 23)), (17, 23));
}

#[test]
fn freehand_draw_then_release_records_history() {
    let mut h = ClickHandler::new(20, 20);
    h.switch_click_type(ClickType::Draw);
    h.handle_click((2, 2));
    h.handle_movement((5, 2));
    assert!(!h.current_curve.is_empty());
    h.handle_release();
    assert!(h.current_curve.is_empty());
    assert_eq!(h.undo_stack.len(), 1);
    assert!(holds(&h.current_blob.points, (3, 2, true)));
}

#[test]
fn line_mode_needs_two_clicks() {
    let mut h = ClickHandler::new(20, 20);
    h.switch_click_type(ClickType::Line);
    h.handle_click((1, 1));
    assert_eq!(h.undo_stack.len(), 0);
    assert!(h.current_blob.points.is_empty());
    h.handle_click((6, 1));
    assert_eq!(h.undo_stack.len(), 1);
    assert!(holds(&h.current_blob.points, (4, 1, true)));
    assert_eq!(h.line_points.len(), 0);
}

#[test]
fn undo_with_empty_stack_returns_nothing() {
    let mut h = ClickHandler::new(20, 20);
    assert!(h.undo().is_none());
}

#[test]
fn undo_restores_overlap_to_earlier_stroke() {
    let mut h = ClickHandler::new(20, 20);
    h.switch_click_type(ClickType::Line);
    // line A: horizontal through (5, 5)
    h.handle_click((1, 5));
    h.handle_click((9, 5));
    // line B: vertical through (5, 5)
    h.handle_click((5, 1));
    h.handle_click((5, 9));
    h.empty_all();
    let undo_blob = h.undo().expect("one shape to undo");
    // the crossing cell returns to present (line A still covers it) ...
    assert!(holds(&undo_blob.points, (5, 5, true)));
    // ... while cells only line B touched return to absent
    assert!(holds(&undo_blob.points, (5, 2, false)));
    assert!(holds(&undo_blob.points, (5, 8, false)));
    assert_eq!(h.undo_stack.len(), 1);
}

#[test]
fn undo_discards_pending_stroke_first() {
    let mut h = ClickHandler::new(20, 20);
    h.switch_click_type(ClickType::Draw);
    h.handle_click((2, 2));
    let r = h.undo();
    assert!(r.is_none());
    assert!(h.current_curve.is_empty());
    assert!(h.current_blob.points.is_empty());
}

#[test]
fn clear_barrier_forgets_everything() {
    let mut h = ClickHandler::new(20, 20);
    h.switch_click_type(ClickType::Draw);
    h.handle_click((2, 2));
    h.handle_release();
    h.clear_barrier();
    assert_eq!(h.undo_stack.len(), 0);
    assert!(h.current_blob.points.is_empty());
    assert!(h.current_curve.is_empty());
    assert!(h.undo().is_none());
}

#[test]
fn update_restarts_stroke_from_current_position() {
    let mut h = ClickHandler::new(20, 20);
    h.switch_click_type(ClickType::Draw);
    h.handle_click((2, 2));
    h.handle_movement((4, 2));
    h.update(true, (4, 2));
    assert!(h.current_blob.points.is_empty());
    assert_eq!(h.current_curve.points, vec![(4, 2, true)]);
    assert_eq!(h.current_curve.last_point, Some((4, 2)));
}

#[test]
fn history_records_and_restores_tags() {
    let mut h = lbm::click_handler::History::new();
    h.push_tag((4, 4, true));
    h.push_tag((4, 4, false));
    // popping the erase reveals the earlier draw
    assert_eq!(h.pop_tag((4, 4)), true);
    // popping the draw leaves the coordinate bare
    assert_eq!(h.pop_tag((4, 4)), false);
    // popping an unrecorded coordinate restores absence
    assert_eq!(h.pop_tag((7, 7)), false);
}
