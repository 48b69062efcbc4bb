use timsrust::frames::{
    dia_frame_positions, frame_type_from_code, frame_types_from_codes, ms1_read_plan,
    ms2_read_plan,
};
use timsrust::{AcquisitionType, FrameType};

#[test]
fn frame_types_from_raw_codes() {
    let types = frame_types_from_codes(&vec![0, 8, 9, 0]);
    assert_eq!(
        types,
        vec![
            FrameType::MS1,
            FrameType::MS2(AcquisitionType::DDAPASEF),
            FrameType::MS2(AcquisitionType::DIAPASEF),
            FrameType::MS1,
        ]
    );
}

#[test]
fn unknown_frame_code() {
    assert_eq!(frame_type_from_code(1), FrameType::Unknown);
    assert_eq!(frame_type_from_code(255), FrameType::Unknown);
}

#[test]
fn ms1_plan_keeps_every_position() {
    let types = frame_types_from_codes(&vec![0, 8, 9, 0, 3]);
    let plan = ms1_read_plan(&types, 5);
    assert_eq!(plan, vec![Some(0), None, None, Some(3), None]);
}

#[test]
fn ms2_plan_keeps_every_position() {
    let types = frame_types_from_codes(&vec![0, 8, 9, 0, 3]);
    let plan = ms2_read_plan(&types, 5);
    assert_eq!(plan, vec![None, Some(1), Some(2), None, None]);
}

#[test]
fn dia_positions_drop_out_of_range_ids() {
    let kept = dia_frame_positions(&vec![0, 5, 2, 9, 3], 4);
    assert_eq!(kept, vec![0, 2, 3]);
    assert!(dia_frame_positions(&vec![], 4).is_empty());
    assert!(dia_frame_positions(&vec![4, 7], 4).is_empty());
}
