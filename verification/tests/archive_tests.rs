use pareto_layout::archive::{saved_file, Archive};

fn sample() -> Archive<String, f64> {
    let mut archive: Archive<String, f64> = Archive::new();
    archive.append_inplace(&"a".to_string(), &vec![0.1, 0.2], true, false, 1.0, -1.0);
    archive.append_inplace(&"b".to_string(), &vec![0.3, 0.4], false, true, 0.5, 0.25);
    archive.append_inplace(&"c".to_string(), &vec![0.5, 0.6], true, true, 0.2, 0.75);
    archive
}

#[test]
fn test_length() {
    let archive: Archive<String, f64> = Archive::new();
    assert_eq!(archive.len(), 0);
}

#[test]
fn append_inplace_adds_a_row_at_the_end() {
    let archive = sample();
    assert_eq!(archive.len(), 3);
    assert_eq!(archive.solutions, vec!["a".to_string(), "b".to_string(), "c".to_string()]);
    assert_eq!(archive.fitnesses[2], vec![0.5, 0.6]);
    assert_eq!(archive.valid, vec![true, false, true]);
    assert_eq!(archive.visited, vec![false, true, true]);
    assert_eq!(archive.step_size, vec![1.0, 0.5, 0.2]);
    assert_eq!(archive.success_rate, vec![-1.0, 0.25, 0.75]);
}

#[test]
fn append_leaves_the_archive_unchanged() {
    let archive = sample();
    let longer = archive.append(&"d".to_string(), &vec![0.7], false, false, 0.1, 0.0);
    assert_eq!(archive.len(), 3);
    assert_eq!(longer.len(), 4);
    assert_eq!(longer.solutions[3], "d");
    assert_eq!(longer.fitnesses[3], vec![0.7]);
    assert_eq!(longer.valid, vec![true, false, true, false]);
    assert_eq!(longer.visited, vec![false, true, true, false]);
    assert_eq!(longer.step_size, vec![1.0, 0.5, 0.2, 0.1]);
}

#[test]
fn mask_keeps_flagged_rows_in_order() {
    let archive = sample();
    let masked = archive.mask(vec![true, false, true]);
    assert_eq!(masked.solutions, vec!["a".to_string(), "c".to_string()]);
    assert_eq!(masked.fitnesses, vec![vec![0.1, 0.2], vec![0.5, 0.6]]);
    assert_eq!(masked.valid, vec![true, true]);
    assert_eq!(masked.visited, vec![false, true]);
    assert_eq!(masked.step_size, vec![1.0, 0.2]);
    assert_eq!(masked.success_rate, vec![-1.0, 0.75]);
    assert_eq!(archive.len(), 3);
}

#[test]
fn mask_drops_rows_past_the_end_of_the_mask() {
    let mut archive = sample();
    archive.mask_inplace(vec![false, true]);
    assert_eq!(archive.solutions, vec!["b".to_string()]);
    assert_eq!(archive.valid, vec![false]);
    assert_eq!(archive.step_size, vec![0.5]);
}

#[test]
fn mask_keeping_all_is_identity() {
    let archive = sample();
    let masked = archive.mask(vec![true, true, true, true]);
    assert_eq!(masked.solutions, archive.solutions);
    assert_eq!(masked.fitnesses, archive.fitnesses);
    assert_eq!(masked.valid, archive.valid);
    assert_eq!(masked.visited, archive.visited);
    assert_eq!(masked.step_size, archive.step_size);
    assert_eq!(masked.success_rate, archive.success_rate);
}

#[test]
fn mask_keeping_none_empties() {
    let archive = sample();
    let masked = archive.mask(vec![false, false, false]);
    assert_eq!(masked.len(), 0);
    assert!(masked.fitnesses.is_empty() && masked.success_rate.is_empty());
}

#[test]
fn clone_copies_every_column() {
    let archive = sample();
    let copy = archive.clone();
    assert_eq!(copy.solutions, archive.solutions);
    assert_eq!(copy.fitnesses, archive.fitnesses);
    assert_eq!(copy.visited, archive.visited);
}

#[test]
fn saved_file_goes_under_logs_and_is_compressed() {
    let json = "{\"rows\": [1, 1, 1, 1, 1, 1, 1, 1, 1, 1, 1, 1, 1, 1, 1, 1, 1, 1, 1, 1, 1, 1, 1, 1]}";
    let (path, bytes) = saved_file(&"3.json".to_string(), json.as_bytes());
    assert_eq!(path, "logs/3.json");
    assert_ne!(bytes.as_slice(), json.as_bytes());
    assert!(bytes.len() < json.len());
}

#[test]
fn append_pushes_one_flag_even_on_misaligned_columns() {
    let mut archive: Archive<String, f64> = Archive::new();
    archive.solutions.push("loose".to_string());
    let longer = archive.append(&"a".to_string(), &vec![0.5], true, false, 1.0, 0.0);
    assert_eq!(longer.valid, vec![true]);
    assert_eq!(longer.visited, vec![false]);
    assert_eq!(longer.solutions.len(), 2);
}
