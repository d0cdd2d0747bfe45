use rs_pinocchio::placo::dynamics;
use rs_pinocchio::placo::kinematics::{DofMask, FrameTaskHandle};
use rs_pinocchio::{check_dimension, index_from_signed, Error, ReferenceFrame};

#[test]
fn reference_frame_codes() {
    assert_eq!(ReferenceFrame::Local.code(), 0);
    assert_eq!(ReferenceFrame::World.code(), 1);
    assert_eq!(ReferenceFrame::LocalWorldAligned.code(), 2);
}

#[test]
fn negative_index_means_absent() {
    assert_eq!(index_from_signed(-1), None);
    assert_eq!(index_from_signed(0), Some(0));
    assert_eq!(index_from_signed(42), Some(42));
}

#[test]
fn dimension_mismatch_is_reported() {
    assert!(check_dimension("configuration q", 7, 7).is_ok());
    match check_dimension("configuration q", 7, 5) {
        Err(Error::DimMismatch { what, expected, got }) => {
            assert_eq!(what, "configuration q");
            assert_eq!(expected, 7);
            assert_eq!(got, 5);
        }
        other => panic!("unexpected {other:?}"),
    }
}

#[test]
fn masking_and_unmasking_dofs() {
    let mut mask = DofMask::new();
    mask.mask_dof(6, 3);
    mask.mask_dof(12, 1);
    assert_eq!(mask.masked_dof.iter().copied().collect::<Vec<_>>(), vec![6, 7, 8, 12]);
    mask.unmask_dof(7, 1);
    assert_eq!(mask.masked_dof.iter().copied().collect::<Vec<_>>(), vec![6, 8, 12]);
    mask.mask_dof(20, 2);
    mask.unmask_dof(20, 2);
    assert_eq!(mask.masked_dof.iter().copied().collect::<Vec<_>>(), vec![6, 8, 12]);
    assert!(!mask.masked_fbase);
    mask.mask_fbase(true);
    assert!(mask.masked_fbase);
}

#[test]
fn frame_task_handles_hold_both_ids() {
    let h = FrameTaskHandle { position: 3, orientation: 4 };
    assert_eq!((h.position, h.orientation), (3, 4));
    let d = dynamics::FrameTaskHandle { position: 0, orientation: 1 };
    assert_eq!((d.position, d.orientation), (0, 1));
}
