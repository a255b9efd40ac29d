use pareto_layout::solution::traits::Solution as SolutionColumns;
use pareto_layout::solution::{Solution, CAMERA};

type Layout = Solution<[f64; 3], f64, String>;

fn three_boxes() -> Layout {
    let mut s: Layout = Solution::new();
    s.p = vec![[0.0, 0.0, 0.0], [1.0, 0.0, 0.0], [2.0, 0.0, 0.0]];
    s.s = vec![[1.0, 1.0, 1.0]; 3];
    s.m = vec![1.0, 2.0, 3.0];
    s.f = vec![0, 0, 0];
    s.o = vec![0.0, 0.5, 1.0];
    s.l = [10.0, 10.0, 10.0];
    s.d = vec![None, None, None];
    s
}

#[test]
fn test_len() {
    let new: Layout = Solution::new();
    assert_eq!(new.len(), 0);
}

#[test]
fn remove_inplace_takes_a_box_out_of_every_column() {
    let mut s = three_boxes();
    s.remove_inplace(1);
    assert_eq!(s.len(), 2);
    assert_eq!(s.p, vec![[0.0, 0.0, 0.0], [2.0, 0.0, 0.0]]);
    assert_eq!(s.m, vec![1.0, 3.0]);
    assert_eq!(s.o, vec![0.0, 1.0]);
    assert_eq!(s.f.len(), 2);
    assert_eq!(s.d.len(), 2);
    assert_eq!(s.l, [10.0, 10.0, 10.0]);
}

#[test]
fn remove_leaves_the_layout_unchanged() {
    let s = three_boxes();
    let r = s.remove(0);
    assert_eq!(s.len(), 3);
    assert_eq!(r.len(), 2);
    assert_eq!(r.m, vec![2.0, 3.0]);
}

#[test]
fn random_cameras_marks_the_drawn_boxes() {
    let mut s = three_boxes();
    let chosen = s.random_cameras(2, &"0.5".to_string());
    assert_eq!(chosen.len(), 2);
    for b in 0..3 {
        if chosen.contains(&b) {
            assert_eq!(s.f[b], CAMERA);
            assert_eq!(s.d[b], Some("0.5".to_string()));
        } else {
            assert_eq!(s.f[b], 0);
            assert_eq!(s.d[b], None);
        }
    }
    assert_eq!(s.m, vec![1.0, 2.0, 3.0]);
}

#[test]
fn random_cameras_with_no_camera_changes_nothing() {
    let mut s: Layout = Solution::new();
    let chosen = s.random_cameras(0, &"x".to_string());
    assert!(chosen.is_empty());
    assert_eq!(s.len(), 0);
}

#[test]
fn getters_give_the_columns() {
    let s = three_boxes();
    assert_eq!(SolutionColumns::m(&s), &vec![1.0, 2.0, 3.0]);
    assert_eq!(SolutionColumns::l(&s), &[10.0, 10.0, 10.0]);
    assert_eq!(SolutionColumns::f(&s).len(), 3);
    assert_eq!(SolutionColumns::p(&s).len(), 3);
    assert_eq!(SolutionColumns::s(&s).len(), 3);
    assert_eq!(SolutionColumns::o(&s).len(), 3);
    assert_eq!(SolutionColumns::d(&s).len(), 3);
}

#[test]
fn with_position_moves_one_box_of_a_copy() {
    let s = three_boxes();
    let moved = s.with_position(2, [5.0, 5.0, 5.0]);
    assert_eq!(moved.p, vec![[0.0, 0.0, 0.0], [1.0, 0.0, 0.0], [5.0, 5.0, 5.0]]);
    assert_eq!(s.p[2], [2.0, 0.0, 0.0]);
    assert_eq!(moved.m, s.m);
    assert_eq!(moved.l, s.l);
}

#[test]
fn cameras_lists_the_camera_boxes() {
    let mut s = three_boxes();
    s.f = vec![1, 0, 1];
    assert_eq!(s.cameras(), vec![0, 2]);
    s.f = vec![0, 2, 0];
    assert!(s.cameras().is_empty());
}

#[test]
fn new_takes_the_default_extent() {
    let new: Layout = Solution::new();
    assert_eq!(new.l, [0.0, 0.0, 0.0]);
    assert!(new.p.is_empty() && new.s.is_empty() && new.m.is_empty());
    assert!(new.f.is_empty() && new.o.is_empty() && new.d.is_empty());
}
