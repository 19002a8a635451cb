use amine::elim::{bound_analysis, reduce_rows};

#[test]
fn bound_rule_marks_exactly_what_a_tight_row_settles() {
    // x0 + x1 = 2: both mines; x2 is not in the row.
    let (safe, mines) = bound_analysis(&vec![vec![1, 1, 0, 2]], 3);
    assert_eq!(safe, vec![false, false, false]);
    assert_eq!(mines, vec![true, true, false]);
    // x0 - x1 = 1: x0 a mine, x1 safe.
    let (safe, mines) = bound_analysis(&vec![vec![1, -1, 0, 1]], 3);
    assert_eq!(safe, vec![false, true, false]);
    assert_eq!(mines, vec![true, false, false]);
    // x0 - x1 = -1: the other way round.
    let (safe, mines) = bound_analysis(&vec![vec![1, -1, 0, -1]], 3);
    assert_eq!(safe, vec![true, false, false]);
    assert_eq!(mines, vec![false, true, false]);
    // x0 - x1 = 0 settles nothing, and an empty row is passed over.
    let (safe, mines) = bound_analysis(&vec![vec![1, -1, 0, 0], vec![0, 0, 0, 0]], 3);
    assert_eq!(safe, vec![false, false, false]);
    assert_eq!(mines, vec![false, false, false]);
}

#[test]
fn bound_rule_passes_over_rows_whose_sums_overflow() {
    let big = i128::MAX;
    let (safe, mines) = bound_analysis(&vec![vec![big, 1, big]], 2);
    assert_eq!(safe, vec![false, false]);
    assert_eq!(mines, vec![false, false]);
}

#[test]
fn reduction_brings_rows_to_echelon_form() {
    let r = reduce_rows(vec![vec![0, 1, 1], vec![1, 0, 1]], 2);
    assert_eq!(r, vec![vec![1, 0, 1], vec![0, 1, 1]]);
    // x0 + x1 = 1 and x0 = 1 reduce to x0 = 1 and x1 = 0.
    let r = reduce_rows(vec![vec![1, 1, 1], vec![1, 0, 1]], 2);
    assert_eq!(r, vec![vec![1, 0, 1], vec![0, 1, 0]]);
}
