use pareto_layout::archive::Archive;
use pareto_layout::pareto::{clean, dominates, get_pareto_front, pareto_front_mask, Standing};
use pareto_layout::pareto::Standing::{Even, Higher, Lower};

fn archive(valid: Vec<bool>, visited: Vec<bool>) -> Archive<usize, f64> {
    let mut a: Archive<usize, f64> = Archive::new();
    for k in 0..valid.len() {
        a.append_inplace(&k, &vec![k as f64], valid[k], visited[k], 1.0, -1.0);
    }
    a
}

#[test]
fn visited_row_dominates_an_outranked_candidate() {
    let a = archive(vec![true, true], vec![true, false]);
    let standings = vec![vec![Lower, Even], vec![Higher, Higher]];
    assert!(dominates(&a, &standings, true));
}

#[test]
fn unvisited_row_does_not_count_for_a_valid_candidate() {
    let a = archive(vec![true, true], vec![false, false]);
    let standings = vec![vec![Lower, Lower], vec![Lower, Even]];
    assert!(!dominates(&a, &standings, true));
    assert!(dominates(&a, &standings, false));
}

#[test]
fn a_higher_value_escapes_dominance() {
    let a = archive(vec![true], vec![true]);
    assert!(!dominates(&a, &vec![vec![Lower, Higher]], true));
    assert!(!dominates(&a, &vec![vec![Even, Even]], true));
    assert!(!dominates(&a, &vec![Vec::<Standing>::new()], true));
}

#[test]
fn front_drops_outranked_and_visited_invalid_rows() {
    // Row 0 outranks row 1; row 2 is visited and invalid.
    let a = archive(vec![true, true, false], vec![false, false, true]);
    let standings = vec![
        vec![vec![Even], vec![Higher], vec![Lower]],
        vec![vec![Lower], vec![Even], vec![Lower]],
        vec![vec![Higher], vec![Higher], vec![Even]],
    ];
    let mask = pareto_front_mask(&a, &standings);
    assert_eq!(mask, vec![true, false, false]);
    let front = get_pareto_front(&a, &standings);
    assert_eq!(front.solutions, vec![0]);
    assert_eq!(front.valid, vec![true]);
}

#[test]
fn invalid_row_cannot_knock_out_a_valid_one() {
    // Row 1 is invalid and outranks valid row 0: row 0 stays, and so does
    // row 1, which is unvisited and which nothing outranks.
    let a = archive(vec![true, false], vec![false, false]);
    let standings = vec![
        vec![vec![Even], vec![Lower]],
        vec![vec![Higher], vec![Even]],
    ];
    let front = get_pareto_front(&a, &standings);
    assert_eq!(front.solutions, vec![0, 1]);
}

#[test]
fn front_of_a_front_keeps_every_row() {
    let a = archive(vec![true, true, true], vec![false, false, false]);
    let standings = vec![
        vec![vec![Even, Even], vec![Higher, Higher], vec![Higher, Lower]],
        vec![vec![Lower, Lower], vec![Even, Even], vec![Lower, Lower]],
        vec![vec![Lower, Higher], vec![Higher, Higher], vec![Even, Even]],
    ];
    let front = get_pareto_front(&a, &standings);
    assert_eq!(front.solutions, vec![0, 2]);
    let restricted = vec![
        vec![standings[0][0].clone(), standings[0][2].clone()],
        vec![standings[2][0].clone(), standings[2][2].clone()],
    ];
    let again = get_pareto_front(&front, &restricted);
    assert_eq!(again.solutions, vec![0, 2]);
}

#[test]
fn clean_keeps_far_rows_that_are_unvisited_or_valid() {
    let a = archive(vec![true, false, false, true], vec![true, true, false, false]);
    let cleaned = clean(&a, &vec![true, true, true, false]);
    assert_eq!(cleaned.solutions, vec![0, 2]);
    assert_eq!(cleaned.visited, vec![true, false]);
}

#[test]
fn an_empty_archive_dominates_nothing() {
    let a = archive(vec![], vec![]);
    assert!(!dominates(&a, &vec![], true));
    assert!(!dominates(&a, &vec![], false));
}
