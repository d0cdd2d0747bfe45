use rs_pinocchio::placo::humanoid::{support_layout, FootstepClipping, Side};

#[test]
fn other_and_roundtrip() {
    assert_eq!(Side::Left.other(), Side::Right);
    assert_eq!(Side::Right.other(), Side::Left);
    for s in [Side::Left, Side::Right, Side::Both] {
        assert_eq!(Side::from_name(s.name()), s);
    }
}

#[test]
fn both_is_its_own_other() {
    assert_eq!(Side::Both.other(), Side::Both);
    for s in [Side::Left, Side::Right, Side::Both] {
        assert_eq!(s.other().other(), s);
    }
}

#[test]
fn side_names_are_lower_case() {
    assert_eq!(Side::Left.name(), "left");
    assert_eq!(Side::Right.name(), "right");
    assert_eq!(Side::Both.name(), "both");
    assert_eq!(Side::from_name("right"), Side::Right);
}

#[test]
fn conic_clipping_is_the_default() {
    assert_eq!(FootstepClipping::default(), FootstepClipping::Conic);
}

fn indices(layout: &[rs_pinocchio::placo::humanoid::SupportLayout]) -> Vec<Vec<usize>> {
    layout.iter().map(|s| s.footsteps.clone()).collect()
}

#[test]
fn support_layout_wraps_with_double_supports() {
    // Six footsteps (two initial feet, four steps), start and end double supports.
    let supports = support_layout(6, true, false, true);
    assert_eq!(supports[0].footsteps.len(), 2);
    assert!(supports[0].start);
    assert!(supports[0].starts_walk);
    let last = supports.last().unwrap();
    assert_eq!(last.footsteps.len(), 2);
    assert!(last.end);
    assert_eq!(
        indices(&supports),
        vec![vec![0, 1], vec![1], vec![2], vec![3], vec![4], vec![4, 5]]
    );
}

#[test]
fn support_layout_with_middle_double_supports() {
    let supports = support_layout(5, false, true, true);
    assert_eq!(
        indices(&supports),
        vec![
            vec![0],
            vec![0, 1],
            vec![1],
            vec![1, 2],
            vec![2],
            vec![2, 3],
            vec![3],
            vec![3, 4]
        ]
    );
    assert!(supports[0].starts_walk && supports[1].starts_walk);
    assert!(!supports[0].start);
    assert!(!supports[2].starts_walk);
}

#[test]
fn support_layout_of_two_footsteps_is_only_the_end() {
    let supports = support_layout(2, true, true, true);
    assert_eq!(indices(&supports), vec![vec![0, 1]]);
    assert!(supports[0].end);
    assert!(support_layout(2, true, true, false).is_empty());
}
