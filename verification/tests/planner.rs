use tablestream::compute_column_widths;
use tablestream::group_width;

#[test]
fn test_column_widths() {
    let cases = vec![
        (vec![10, 10, 10], 40, vec![vec![10, 10, 10]]),
        (vec![10, 10, 10], 25, vec![vec![10, 10], vec![21]]),
        (vec![10, 5, 10], 25, vec![vec![10, 5], vec![16]]),
        (vec![20, 10, 5], 25, vec![vec![20], vec![14, 5]]),
        (vec![20, 10, 30], 25, vec![vec![23], vec![23], vec![23]]),
        (
            vec![20, 10, 3, 30],
            25,
            vec![vec![23], vec![19, 3], vec![23]],
        ),
    ];
    for (requested, line, expected) in cases {
        let computed = compute_column_widths(requested, line);
        for l in &expected {
            let ll = group_width(&l);
            assert!(
                ll == group_width(&expected[0]),
                "bad test case: {l:?} has length {ll}"
            );
        }
        assert_eq!(computed, expected);
    }
}

#[test]
fn plan_groups_share_one_width() {
    let plans = vec![
        compute_column_widths(vec![7, 3, 9, 4, 12], 17),
        compute_column_widths(vec![1, 1, 1, 1, 1, 1, 1], 9),
        compute_column_widths(vec![30, 2, 2], 33),
    ];
    for plan in plans {
        let first = group_width(&plan[0]);
        for g in &plan {
            assert_eq!(group_width(g), first);
        }
    }
}

#[test]
fn plan_groups_fit_line_width() {
    let cases = vec![
        (vec![7, 3, 9, 4, 12], 17),
        (vec![1, 1, 1, 1, 1, 1, 1], 9),
        (vec![30, 2, 2], 33),
        (vec![10, 10, 10], 25),
    ];
    for (requested, line) in cases {
        let plan = compute_column_widths(requested, line);
        for g in &plan {
            assert!(group_width(g) <= line);
        }
    }
}

#[test]
fn plan_single_overlong_column_is_clamped() {
    let plan = compute_column_widths(vec![5, 200], 25);
    assert_eq!(plan, vec![vec![23], vec![23]]);
}

#[test]
fn plan_overlong_first_column_is_clamped() {
    assert_eq!(compute_column_widths(vec![30], 25), vec![vec![23]]);
    assert_eq!(
        compute_column_widths(vec![40, 10], 25),
        vec![vec![23], vec![23]]
    );
    assert_eq!(
        compute_column_widths(vec![30, 3, 3], 25),
        vec![vec![23], vec![19, 3]]
    );
}
