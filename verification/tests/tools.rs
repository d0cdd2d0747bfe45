use rs_pinocchio::placo::tools::axises_mask::{axis_indices, mask_frame_from_name};
use rs_pinocchio::placo::tools::polynom::derivative_coefficient;
use rs_pinocchio::placo::tools::{MaskFrame, Priority};

#[test]
fn priority_roundtrips_through_name() {
    for p in [Priority::Hard, Priority::Soft, Priority::Scaled] {
        assert_eq!(Priority::from_name(p.name()), p);
    }
}

#[test]
fn priority_names_and_default() {
    assert_eq!(Priority::Scaled.name(), "scaled");
    assert_eq!(Priority::from_name("soft"), Priority::Soft);
    assert_eq!(Priority::default(), Priority::Soft);
}

#[test]
fn derivative_coefficient_falling_factorial() {
    assert_eq!(derivative_coefficient(3, 0), 1);
    assert_eq!(derivative_coefficient(3, 1), 3);
    assert_eq!(derivative_coefficient(3, 2), 6); // 3*2
    assert_eq!(derivative_coefficient(3, 3), 6); // 3*2*1
    assert_eq!(derivative_coefficient(2, 3), 0); // derivative > degree
}

#[test]
fn derivative_coefficient_larger_values() {
    assert_eq!(derivative_coefficient(5, 2), 20);
    assert_eq!(derivative_coefficient(20, 20), 2_432_902_008_176_640_000);
    assert_eq!(derivative_coefficient(-1, 0), 0);
    assert_eq!(derivative_coefficient(0, -2), 1);
}

#[test]
fn axis_letters_select_rows() {
    assert_eq!(axis_indices("xz"), vec![0, 2]);
    assert_eq!(axis_indices("XyZ"), vec![0, 1, 2]);
    assert_eq!(axis_indices("zzx"), vec![2, 2, 0]);
    assert_eq!(axis_indices(""), Vec::<usize>::new());
}

#[test]
fn mask_frame_names() {
    assert_eq!(mask_frame_from_name("task"), MaskFrame::Task);
    assert_eq!(mask_frame_from_name("world"), MaskFrame::Task);
    assert_eq!(mask_frame_from_name("local"), MaskFrame::Local);
    assert_eq!(mask_frame_from_name("custom"), MaskFrame::Custom);
    assert_eq!(MaskFrame::default(), MaskFrame::Task);
}
