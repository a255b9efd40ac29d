use pareto_layout::archive::Archive;
use pareto_layout::pareto::Standing::{Even, Higher, Lower};
use pareto_layout::pls::{keep_valid, offer, visit};

fn seeded() -> Archive<String, f64> {
    let mut a: Archive<String, f64> = Archive::new();
    a.append_inplace(&"start".to_string(), &vec![0.5, 0.5], true, false, 1.0, -1.0);
    a
}

#[test]
fn visit_marks_the_row_and_returns_its_layout() {
    let mut a = seeded();
    let target = visit(&mut a, 0);
    assert_eq!(target, "start");
    assert_eq!(a.visited, vec![true]);
}

#[test]
fn offer_adds_an_undominated_candidate_unvisited() {
    let mut a = seeded();
    visit(&mut a, 0);
    assert!(offer(&mut a, &"next".to_string(), &vec![0.7, 0.4], true, 1.0, -1.0, &vec![vec![Higher, Lower]]));
    assert_eq!(a.len(), 2);
    assert_eq!(a.solutions[1], "next");
    assert_eq!(a.visited, vec![true, false]);
    assert_eq!(a.valid, vec![true, true]);
}

#[test]
fn offer_refuses_a_dominated_candidate() {
    let mut a = seeded();
    visit(&mut a, 0);
    assert!(!offer(&mut a, &"worse".to_string(), &vec![0.1, 0.5], true, 1.0, -1.0, &vec![vec![Lower, Even]]));
    assert_eq!(a.len(), 1);
}

#[test]
fn keep_valid_drops_invalid_rows() {
    let mut a = seeded();
    a.append_inplace(&"bad".to_string(), &vec![0.9, 0.9], false, false, 1.0, -1.0);
    keep_valid(&mut a);
    assert_eq!(a.solutions, vec!["start".to_string()]);
}

#[test]
fn neighbourhood_lists_box_then_cells_last_coordinate_fastest() {
    let moves = pareto_layout::pls::neighbourhood(2, [2, 1, 3]);
    assert_eq!(moves.len(), 12);
    assert_eq!(moves[0], (0, 0, 0, 0));
    assert_eq!(moves[1], (0, 0, 0, 1));
    assert_eq!(moves[3], (0, 1, 0, 0));
    assert_eq!(moves[11], (1, 1, 0, 2));
    // Box 1 to cell (1, 0, 2) sits at ((1 * 2 + 1) * 1 + 0) * 3 + 2.
    assert_eq!(moves[((1 * 2 + 1) * 1 + 0) * 3 + 2], (1, 1, 0, 2));
}

#[test]
fn neighbourhood_of_an_empty_grid_is_empty() {
    assert!(pareto_layout::pls::neighbourhood(3, [4, 0, 2]).is_empty());
    assert!(pareto_layout::pls::neighbourhood(0, [4, 4, 4]).is_empty());
}

#[test]
fn a_dominated_candidate_stays_dominated_as_the_archive_grows() {
    let mut a = seeded();
    visit(&mut a, 0);
    let standings = vec![vec![Lower, Lower]];
    assert!(pareto_layout::pareto::dominates(&a, &standings, true));
    assert!(offer(&mut a, &"other".to_string(), &vec![0.9, 0.1], true, 1.0, -1.0, &vec![vec![Higher, Lower]]));
    let grown = vec![vec![Lower, Lower], vec![Higher, Even]];
    assert!(pareto_layout::pareto::dominates(&a, &grown, true));
}
