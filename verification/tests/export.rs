use megascops::export::CheckpointBuffer;
use megascops::record::ExportFrame;

fn record(n: usize) -> ExportFrame {
    ExportFrame {
        file: format!("/in/{}.jpg", n),
        frame_index: 0,
        shoot_time: None,
        total_frames: 1,
        iframe: false,
        bboxes: Some(Vec::new()),
        label: Some("blank".to_string()),
        error: None,
    }
}

#[test]
fn an_interval_of_zero_gives_no_buffer() {
    assert!(CheckpointBuffer::new(0).is_none());
    assert!(CheckpointBuffer::resume(0, vec![record(1)]).is_none());
}

#[test]
fn a_new_buffer_is_empty() {
    let buffer = CheckpointBuffer::new(3).unwrap();
    assert_eq!(buffer.len(), 0);
    assert!(buffer.snapshot().is_empty());
}

#[test]
fn a_checkpoint_is_due_after_every_interval() {
    let mut buffer = CheckpointBuffer::new(3).unwrap();
    let due: Vec<bool> = (0..10).map(|n| buffer.receive(record(n))).collect();
    assert_eq!(due, vec![false, false, true, false, false, true, false, false, true, false]);
    assert_eq!(buffer.len(), 10);
}

#[test]
fn an_interval_of_one_writes_after_every_record() {
    let mut buffer = CheckpointBuffer::new(1).unwrap();
    assert!(buffer.receive(record(0)));
    assert!(buffer.receive(record(1)));
    assert!(buffer.receive(record(2)));
}

#[test]
fn records_are_kept_in_the_order_of_arrival() {
    let mut buffer = CheckpointBuffer::new(2).unwrap();
    for n in 0..5 {
        buffer.receive(record(n));
    }
    let names: Vec<&str> = buffer.snapshot().iter().map(|r| r.file.as_str()).collect();
    assert_eq!(names, vec!["/in/0.jpg", "/in/1.jpg", "/in/2.jpg", "/in/3.jpg", "/in/4.jpg"]);
}

#[test]
fn every_checkpoint_is_a_prefix_of_what_follows() {
    let mut buffer = CheckpointBuffer::new(4).unwrap();
    let mut checkpoints: Vec<Vec<ExportFrame>> = Vec::new();
    for n in 0..23 {
        if buffer.receive(record(n)) {
            checkpoints.push(buffer.snapshot().clone());
        }
        for checkpoint in &checkpoints {
            assert!(checkpoint.len() <= buffer.len());
            assert_eq!(&buffer.snapshot()[..checkpoint.len()], &checkpoint[..]);
        }
    }
    assert_eq!(checkpoints.len(), 5);
    let lengths: Vec<usize> = checkpoints.iter().map(|c| c.len()).collect();
    assert_eq!(lengths, vec![4, 8, 12, 16, 20]);
    let last = buffer.finish();
    assert_eq!(last.len(), 23);
    assert_eq!(&last[..20], &checkpoints[4][..]);
}

#[test]
fn a_resumed_buffer_starts_from_the_loaded_records() {
    let mut buffer = CheckpointBuffer::resume(2, vec![record(100), record(101), record(102)]).unwrap();
    assert_eq!(buffer.len(), 3);
    // the interval counts the arrivals of this run, not the loaded records
    assert!(!buffer.receive(record(0)));
    assert!(buffer.receive(record(1)));
    let names: Vec<String> = buffer.finish().into_iter().map(|r| r.file).collect();
    assert_eq!(names, vec!["/in/100.jpg", "/in/101.jpg", "/in/102.jpg", "/in/0.jpg", "/in/1.jpg"]);
}

#[test]
fn the_final_artifact_holds_every_record() {
    let mut buffer = CheckpointBuffer::new(5).unwrap();
    buffer.receive(record(1));
    buffer.receive(ExportFrame::failure("/in/bad.jpg".to_string(), "Failed to decode: x".to_string()));
    let all = buffer.finish();
    assert_eq!(all.len(), 2);
    assert_eq!(all[0], record(1));
    assert_eq!(all[1].error, Some("Failed to decode: x".to_string()));
}

#[test]
fn loaded_records_are_appended_to_what_the_buffer_holds() {
    let mut buffer = CheckpointBuffer::new(2).unwrap();
    buffer.receive(record(0));
    buffer.extend(vec![record(10), record(11), record(12)]);
    assert_eq!(buffer.len(), 4);
    // the loaded records count for no arrival: the second arrival is due
    assert!(buffer.receive(record(1)));
    assert!(!buffer.receive(record(2)));
    let names: Vec<&str> = buffer.snapshot().iter().map(|r| r.file.as_str()).collect();
    assert_eq!(
        names,
        vec!["/in/0.jpg", "/in/10.jpg", "/in/11.jpg", "/in/12.jpg", "/in/1.jpg", "/in/2.jpg"]
    );
}

#[test]
fn appending_nothing_changes_nothing() {
    let mut buffer = CheckpointBuffer::new(3).unwrap();
    buffer.extend(Vec::new());
    assert_eq!(buffer.len(), 0);
    buffer.receive(record(0));
    buffer.extend(Vec::new());
    assert_eq!(buffer.finish(), vec![record(0)]);
}

#[test]
fn appending_to_an_empty_buffer_gives_what_resuming_gives() {
    let loaded = vec![record(5), record(6)];
    let mut appended = CheckpointBuffer::new(4).unwrap();
    appended.extend(loaded.clone());
    let resumed = CheckpointBuffer::resume(4, loaded.clone()).unwrap();
    assert_eq!(appended.snapshot(), resumed.snapshot());
    assert_eq!(appended.finish(), loaded);
}
