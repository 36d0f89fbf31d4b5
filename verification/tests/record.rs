use megascops::record::{clone_boxes, clone_text, Bbox, ExportFrame};

fn detection() -> Bbox {
    Bbox { x1: 0x3f000000, y1: 0x3e800000, x2: 0x3f400000, y2: 0x3f600000, class: 2, score: 0x3f666666 }
}

fn detected() -> ExportFrame {
    ExportFrame {
        file: "/in/a.jpg".to_string(),
        frame_index: 0,
        shoot_time: Some("2024-05-01 10:00:00 +02:00".to_string()),
        total_frames: 1,
        iframe: false,
        bboxes: Some(vec![detection()]),
        label: Some("deer".to_string()),
        error: None,
    }
}

#[test]
fn a_failure_record_holds_the_error_only() {
    let r = ExportFrame::failure("/in/broken.jpg".to_string(), "Failed to decode: bad".to_string());
    assert_eq!(r.file, "/in/broken.jpg");
    assert_eq!(r.frame_index, 0);
    assert_eq!(r.total_frames, 0);
    assert_eq!(r.shoot_time, None);
    assert!(!r.iframe);
    assert_eq!(r.bboxes, None);
    assert_eq!(r.label, None);
    assert_eq!(r.error, Some("Failed to decode: bad".to_string()));
    assert!(r.is_failed());
    assert!(!r.is_detected());
    assert!(r.is_well_formed());
}

#[test]
fn a_detected_record_is_well_formed() {
    let r = detected();
    assert!(r.is_detected());
    assert!(!r.is_failed());
    assert!(r.is_well_formed());
}

#[test]
fn a_detected_record_may_hold_no_box() {
    let mut r = detected();
    r.bboxes = Some(Vec::new());
    assert!(r.is_detected());
    assert!(r.is_well_formed());
}

#[test]
fn a_record_with_both_outcomes_is_not_well_formed() {
    let mut r = detected();
    r.error = Some("late error".to_string());
    assert!(!r.is_detected());
    assert!(!r.is_failed());
    assert!(!r.is_well_formed());
}

#[test]
fn a_record_with_no_outcome_is_not_well_formed() {
    let mut r = detected();
    r.bboxes = None;
    r.label = None;
    assert!(!r.is_well_formed());
}

#[test]
fn a_record_with_half_an_outcome_is_not_well_formed() {
    let mut r = detected();
    r.label = None;
    assert!(!r.is_well_formed());
    let mut r = detected();
    r.bboxes = None;
    assert!(!r.is_well_formed());
    let mut r = ExportFrame::failure("f".to_string(), "e".to_string());
    r.label = Some("deer".to_string());
    assert!(!r.is_well_formed());
}

#[test]
fn a_clone_is_equal_to_its_record() {
    let r = detected();
    assert_eq!(r.clone(), r);
    let f = ExportFrame::failure("f".to_string(), "e".to_string());
    assert_eq!(f.clone(), f);
}

#[test]
fn boxes_and_texts_are_copied() {
    let boxes = vec![detection(), Bbox { class: 7, ..detection() }];
    assert_eq!(clone_boxes(&boxes), boxes);
    assert_eq!(clone_boxes(&Vec::new()), Vec::<Bbox>::new());
    assert_eq!(clone_text(&Some("x".to_string())), Some("x".to_string()));
    assert_eq!(clone_text(&None), None);
}
