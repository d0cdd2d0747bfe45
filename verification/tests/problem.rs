use rs_pinocchio::placo::problem::problem::{qp_layout, validate_shape, ConstraintShape, ProblemVariables};
use rs_pinocchio::placo::problem::constraint::constraint_priority_from_name;
use rs_pinocchio::placo::problem::{ConstraintPriority, ConstraintType, ProblemPolynom, QpError, Variable};
use rs_pinocchio::placo::problem::ConstraintPriority::{Hard, Soft};
use rs_pinocchio::placo::problem::ConstraintType::{Equality, Inequality};

fn shape(type_: ConstraintType, priority: ConstraintPriority, rows: usize, cols: usize) -> ConstraintShape {
    ConstraintShape { type_, priority, rows, cols, b_rows: rows }
}

#[test]
fn variables_are_consecutive_blocks() {
    let mut vars = ProblemVariables::new();
    let a = vars.add_variable(2);
    let b = vars.add_variable(3);
    assert_eq!(a, Variable { k_start: 0, k_end: 2 });
    assert_eq!(b, Variable { k_start: 2, k_end: 5 });
    assert_eq!(a.size(), 2);
    assert_eq!(b.size(), 3);
    assert_eq!(vars.n_variables(), 5);
    vars.clear();
    assert_eq!(vars.n_variables(), 0);
}

#[test]
fn variable_size_is_its_width() {
    let v = Variable { k_start: 2, k_end: 5 };
    assert_eq!(v.size(), 3);
}

#[test]
fn problem_polynom_keeps_its_variable() {
    let v = Variable { k_start: 1, k_end: 4 };
    assert_eq!(ProblemPolynom::new(v).variable(), v);
}

#[test]
fn defaults_and_priority_names() {
    assert_eq!(ConstraintType::default(), ConstraintType::Equality);
    assert_eq!(ConstraintPriority::default(), ConstraintPriority::Hard);
    assert_eq!(constraint_priority_from_name("soft"), ConstraintPriority::Soft);
    assert_eq!(constraint_priority_from_name("hard"), ConstraintPriority::Hard);
}

#[test]
fn layout_counts_and_owners() {
    let shapes = vec![
        shape(Equality, Soft, 2, 3),
        shape(Inequality, Hard, 2, 3),
        shape(Equality, Hard, 1, 2),
        shape(Inequality, Soft, 3, 3),
        shape(Inequality, Hard, 1, 1),
    ];
    let layout = qp_layout(3, &shapes).unwrap();
    assert_eq!(layout.n_equalities, 1);
    assert_eq!(layout.slack_variables, 3);
    assert_eq!(layout.n_inequalities, 6);
    assert_eq!(
        layout.hard_row_owner,
        vec![None, None, None, Some(1), Some(1), Some(4)]
    );
    assert_eq!(layout.soft_slack_owner, vec![Some(3), Some(3), Some(3)]);
}

#[test]
fn layout_of_no_constraints_is_empty() {
    let layout = qp_layout(0, &vec![]).unwrap();
    assert_eq!(layout.n_equalities, 0);
    assert_eq!(layout.n_inequalities, 0);
    assert_eq!(layout.slack_variables, 0);
    assert!(layout.hard_row_owner.is_empty() && layout.soft_slack_owner.is_empty());
}

fn malformed_message(r: Result<(), QpError>) -> String {
    match r {
        Err(QpError::Malformed(m)) => m,
        other => panic!("expected a malformed-problem error, got {other:?}"),
    }
}

#[test]
fn malformed_shapes_are_rejected() {
    assert_eq!(
        malformed_message(validate_shape(2, &shape(Equality, Hard, 1, 3))),
        "inconsistent problem size"
    );
    assert_eq!(
        malformed_message(validate_shape(2, &shape(Equality, Hard, 0, 2))),
        "A or b is empty"
    );
    let mut s = shape(Inequality, Soft, 2, 2);
    s.b_rows = 1;
    assert_eq!(malformed_message(validate_shape(2, &s)), "A.rows() != b.rows()");
    assert!(validate_shape(2, &shape(Inequality, Soft, 2, 2)).is_ok());
}

#[test]
fn layout_reports_the_first_malformed_constraint() {
    let mut bad = shape(Equality, Hard, 2, 1);
    bad.b_rows = 3;
    let shapes = vec![shape(Equality, Hard, 1, 1), bad, shape(Equality, Hard, 1, 9)];
    match qp_layout(2, &shapes) {
        Err(QpError::Malformed(m)) => assert_eq!(m, "A.rows() != b.rows()"),
        other => panic!("unexpected {other:?}"),
    }
}
