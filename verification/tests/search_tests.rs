use pareto_layout::archive::Archive;
use pareto_layout::search::{pick_operator, should_continiue, unvisited_rows, ITERATION_LIMIT};

fn archive(visited: Vec<bool>) -> Archive<u8, f64> {
    let mut a: Archive<u8, f64> = Archive::new();
    for (k, v) in visited.iter().enumerate() {
        a.append_inplace(&(k as u8), &vec![0.0], true, *v, 1.0, -1.0);
    }
    a
}

#[test]
fn unvisited_rows_lists_the_unvisited_indices() {
    let a = archive(vec![true, false, true, false, false]);
    assert_eq!(unvisited_rows(&a), vec![1, 3, 4]);
}

#[test]
fn pick_operator_picks_an_unvisited_row() {
    let a = archive(vec![true, false, true, false]);
    for _ in 0..50 {
        let pick = pick_operator(&a).unwrap();
        assert!(pick == 1 || pick == 3);
    }
}

#[test]
fn pick_operator_gives_none_when_all_visited() {
    assert_eq!(pick_operator(&archive(vec![true, true])), None);
    assert_eq!(pick_operator(&archive(vec![])), None);
}

#[test]
fn should_continiue_counts_calls_and_stops_when_all_visited() {
    let mut counter = 0usize;
    assert!(should_continiue(&mut counter, &archive(vec![true, false])));
    assert_eq!(counter, 1);
    assert!(!should_continiue(&mut counter, &archive(vec![true, true])));
    assert_eq!(counter, 2);
}

#[test]
fn should_continiue_stops_at_the_iteration_limit() {
    let a = archive(vec![false]);
    let mut counter = ITERATION_LIMIT - 2;
    assert!(should_continiue(&mut counter, &a));
    assert!(!should_continiue(&mut counter, &a));
    assert_eq!(counter, 10000);
}
