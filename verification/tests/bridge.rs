use megascops::bridge::{
    convert_bbox, convert_bboxes, record_of_error, DetectResponse, Outbound, PendingMap,
    ResponseBbox,
};
use megascops::files::FileItem;
use megascops::media::{ErrFile, Frame, WebpItem};
use megascops::record::Bbox;

fn frame(path: &str, index: usize, total: usize) -> Frame {
    Frame {
        file: FileItem::new(path.to_string()),
        webp: vec![b'R', b'I', b'F', b'F', index as u8],
        width: 3000,
        height: 2000,
        frame_index: index,
        total_frames: total,
        shoot_time: Some("2024-05-01 10:00:00 +02:00".to_string()),
        iframe: false,
    }
}

fn reply_box(class: i32) -> ResponseBbox {
    ResponseBbox { x1: 1, y1: 2, x2: 3, y2: 4, class, score: 0x3f4ccccd }
}

fn reply(uuid: &str, boxes: usize, label: &str) -> DetectResponse {
    DetectResponse {
        uuid: uuid.to_string(),
        bboxs: (0..boxes).map(|i| reply_box(i as i32)).collect(),
        label: label.to_string(),
    }
}

const IOU: u32 = 0x3ee66666;
const SCORE: u32 = 0x3e4ccccd;

#[test]
fn a_registered_frame_is_pending_and_its_request_carries_it() {
    let mut pending = PendingMap::new();
    assert_eq!(pending.len(), 0);
    let request = pending.register(frame("/in/a.jpg", 0, 1), "id-1".to_string(), IOU, SCORE).unwrap();
    assert_eq!(request.uuid, "id-1");
    assert_eq!(request.image, vec![b'R', b'I', b'F', b'F', 0]);
    assert_eq!(request.width, 3000);
    assert_eq!(request.height, 2000);
    assert_eq!(request.iou, IOU);
    assert_eq!(request.score, SCORE);
    assert!(!request.iframe);
    assert_eq!(pending.len(), 1);
    assert!(pending.contains("id-1"));
    assert!(!pending.contains("id-2"));
}

#[test]
fn a_reply_completes_its_frame() {
    let mut pending = PendingMap::new();
    pending.register(frame("/in/a.jpg", 0, 1), "id-1".to_string(), IOU, SCORE).unwrap();
    let record = pending.complete(reply("id-1", 2, "deer")).unwrap();
    assert_eq!(record.file, "/in/a.jpg");
    assert_eq!(record.frame_index, 0);
    assert_eq!(record.total_frames, 1);
    assert_eq!(record.shoot_time, Some("2024-05-01 10:00:00 +02:00".to_string()));
    assert!(!record.iframe);
    assert_eq!(
        record.bboxes,
        Some(vec![
            Bbox { x1: 1, y1: 2, x2: 3, y2: 4, class: 0, score: 0x3f4ccccd },
            Bbox { x1: 1, y1: 2, x2: 3, y2: 4, class: 1, score: 0x3f4ccccd },
        ])
    );
    assert_eq!(record.label, Some("deer".to_string()));
    assert_eq!(record.error, None);
    assert!(record.is_well_formed());
    assert_eq!(pending.len(), 0);
    assert!(!pending.contains("id-1"));
}

#[test]
fn a_reply_with_an_unknown_id_is_dropped() {
    let mut pending = PendingMap::new();
    pending.register(frame("/in/a.jpg", 0, 1), "id-1".to_string(), IOU, SCORE).unwrap();
    assert!(pending.complete(reply("id-9", 1, "fox")).is_none());
    assert_eq!(pending.len(), 1);
    assert!(pending.contains("id-1"));
}

#[test]
fn a_second_reply_for_one_frame_is_dropped() {
    let mut pending = PendingMap::new();
    pending.register(frame("/in/a.jpg", 0, 1), "id-1".to_string(), IOU, SCORE).unwrap();
    assert!(pending.complete(reply("id-1", 1, "fox")).is_some());
    assert!(pending.complete(reply("id-1", 1, "fox")).is_none());
}

#[test]
fn replies_in_any_order_find_their_frames() {
    let mut pending = PendingMap::new();
    pending.register(frame("/in/clip.mp4", 0, 3), "u0".to_string(), IOU, SCORE).unwrap();
    pending.register(frame("/in/a.jpg", 0, 1), "u1".to_string(), IOU, SCORE).unwrap();
    pending.register(frame("/in/clip.mp4", 10, 3), "u2".to_string(), IOU, SCORE).unwrap();
    pending.register(frame("/in/clip.mp4", 20, 3), "u3".to_string(), IOU, SCORE).unwrap();
    let third = pending.complete(reply("u3", 0, "blank")).unwrap();
    let image = pending.complete(reply("u1", 1, "deer")).unwrap();
    let first = pending.complete(reply("u0", 2, "fox")).unwrap();
    let second = pending.complete(reply("u2", 3, "owl")).unwrap();
    assert_eq!((third.file.as_str(), third.frame_index, third.total_frames), ("/in/clip.mp4", 20, 3));
    assert_eq!((image.file.as_str(), image.frame_index, image.total_frames), ("/in/a.jpg", 0, 1));
    assert_eq!((first.file.as_str(), first.frame_index), ("/in/clip.mp4", 0));
    assert_eq!((second.file.as_str(), second.frame_index), ("/in/clip.mp4", 10));
    assert_eq!(third.bboxes.unwrap().len(), 0);
    assert_eq!(image.label, Some("deer".to_string()));
    assert_eq!(first.bboxes.unwrap().len(), 2);
    assert_eq!(second.bboxes.unwrap().len(), 3);
    assert_eq!(pending.len(), 0);
}

#[test]
fn an_id_that_is_pending_is_refused() {
    let mut pending = PendingMap::new();
    assert!(pending.register(frame("/in/a.jpg", 0, 1), "same".to_string(), IOU, SCORE).is_ok());
    let back = pending.register(frame("/in/b.png", 0, 1), "same".to_string(), IOU, SCORE).unwrap_err();
    assert_eq!(back.file.file_path, "/in/b.png");
    assert_eq!(back.webp, vec![b'R', b'I', b'F', b'F', 0]);
    assert_eq!(pending.len(), 1);
    let record = pending.complete(reply("same", 0, "x")).unwrap();
    assert_eq!(record.file, "/in/a.jpg");
}

#[test]
fn an_id_may_be_used_again_after_its_reply() {
    let mut pending = PendingMap::new();
    assert!(pending.register(frame("/in/a.jpg", 0, 1), "same".to_string(), IOU, SCORE).is_ok());
    assert_eq!(pending.complete(reply("same", 0, "x")).unwrap().file, "/in/a.jpg");
    assert!(pending.register(frame("/in/b.png", 0, 1), "same".to_string(), IOU, SCORE).is_ok());
    assert_eq!(pending.complete(reply("same", 0, "x")).unwrap().file, "/in/b.png");
    assert!(pending.complete(reply("same", 0, "x")).is_none());
}

#[test]
fn the_record_names_the_source_not_the_staged_copy() {
    let mut pending = PendingMap::new();
    let mut staged = frame("/in/a.jpg", 0, 1);
    staged.file = staged.file.staged_at("/scratch/a.jpg".to_string());
    pending.register(staged, "id".to_string(), IOU, SCORE).unwrap();
    assert_eq!(pending.complete(reply("id", 0, "x")).unwrap().file, "/in/a.jpg");
}

#[test]
fn sizes_beyond_the_wire_type_are_cut() {
    let mut pending = PendingMap::new();
    let mut big = frame("/in/a.jpg", 0, 1);
    big.width = (1usize << 31) + 5;
    big.height = 7;
    let request = pending.register(big, "id".to_string(), IOU, SCORE).unwrap();
    assert_eq!(request.width, i32::MIN + 5);
    assert_eq!(request.height, 7);
}

#[test]
fn a_key_frame_is_marked_in_request_and_record() {
    let mut pending = PendingMap::new();
    let mut key = frame("/in/clip.mp4", 4, 9);
    key.iframe = true;
    key.shoot_time = None;
    let request = pending.register(key, "k".to_string(), IOU, SCORE).unwrap();
    assert!(request.iframe);
    let record = pending.complete(reply("k", 1, "boar")).unwrap();
    assert!(record.iframe);
    assert_eq!(record.shoot_time, None);
}

#[test]
fn a_submitted_frame_gets_a_fresh_id() {
    let mut pending = PendingMap::new();
    let first = match pending.submit(WebpItem::Frame(frame("/in/a.jpg", 0, 1)), IOU, SCORE) {
        Outbound::Request(r) => r,
        Outbound::Export(_) => panic!("a frame is sent, not exported"),
    };
    let second = match pending.submit(WebpItem::Frame(frame("/in/b.png", 0, 1)), IOU, SCORE) {
        Outbound::Request(r) => r,
        Outbound::Export(_) => panic!("a frame is sent, not exported"),
    };
    assert_ne!(first.uuid, second.uuid);
    assert_eq!(first.uuid.len(), 36);
    assert_eq!(first.image, vec![b'R', b'I', b'F', b'F', 0]);
    assert_eq!((first.iou, first.score), (IOU, SCORE));
    assert_eq!(pending.len(), 2);
    assert!(pending.contains(&first.uuid));
    assert!(pending.contains(&second.uuid));
    let record = pending.complete(reply(&second.uuid, 1, "deer")).unwrap();
    assert_eq!(record.file, "/in/b.png");
}

#[test]
fn a_submitted_error_goes_to_the_export() {
    let mut pending = PendingMap::new();
    let item = WebpItem::ErrFile(ErrFile {
        file: FileItem::new("/in/broken.jpg".to_string()),
        error: "Failed to decode: invalid JPEG format: first two bytes are not an SOI marker".to_string(),
    });
    match pending.submit(item, IOU, SCORE) {
        Outbound::Export(record) => {
            assert_eq!(record.file, "/in/broken.jpg");
            assert_eq!(
                record.error,
                Some("Failed to decode: invalid JPEG format: first two bytes are not an SOI marker".to_string())
            );
            assert_eq!(record.bboxes, None);
            assert_eq!(record.label, None);
            assert_eq!((record.frame_index, record.total_frames), (0, 0));
            assert!(record.is_failed());
            assert!(record.is_well_formed());
        }
        Outbound::Request(_) => panic!("an error is exported, not sent"),
    }
    assert_eq!(pending.len(), 0);
}

#[test]
fn the_record_of_an_error_names_the_source_file() {
    let file = FileItem::new("/in/clip.mov".to_string()).staged_at("/scratch/clip.mov".to_string());
    let record = record_of_error(ErrFile { file, error: "Failed to get video dimensions".to_string() });
    assert_eq!(record.file, "/in/clip.mov");
    assert_eq!(record.error, Some("Failed to get video dimensions".to_string()));
}

#[test]
fn boxes_are_taken_over_field_by_field() {
    let b = ResponseBbox { x1: 10, y1: 20, x2: 30, y2: 40, class: 5, score: 60 };
    assert_eq!(convert_bbox(&b), Bbox { x1: 10, y1: 20, x2: 30, y2: 40, class: 5, score: 60 });
    assert_eq!(convert_bbox(&ResponseBbox { class: 0, ..b }).class, 0);
    assert_eq!(convert_bbox(&ResponseBbox { class: i32::MAX, ..b }).class, i32::MAX as usize);
    // a class below zero is cut to the machine's word as it stands
    assert_eq!(convert_bbox(&ResponseBbox { class: -1, ..b }).class, usize::MAX);
    assert_eq!(convert_bboxes(&vec![b, ResponseBbox { class: 6, ..b }]).len(), 2);
    assert_eq!(convert_bboxes(&Vec::new()), Vec::<Bbox>::new());
}

#[test]
fn every_exported_record_holds_one_outcome() {
    let mut pending = PendingMap::new();
    let mut exported = Vec::new();
    for i in 0..5usize {
        let item = if i % 2 == 0 {
            WebpItem::Frame(frame("/in/a.jpg", i, 5))
        } else {
            WebpItem::ErrFile(ErrFile { file: FileItem::new(format!("/in/{}.jpg", i)), error: "bad".to_string() })
        };
        match pending.submit(item, IOU, SCORE) {
            Outbound::Request(request) => {
                exported.push(pending.complete(reply(&request.uuid, i, "x")).unwrap());
            }
            Outbound::Export(record) => exported.push(record),
        }
    }
    assert_eq!(exported.len(), 5);
    for record in &exported {
        assert!(record.is_well_formed());
        assert!(record.is_detected() != record.is_failed());
    }
}

#[test]
fn the_records_of_a_run_are_its_answers_and_its_errors() {
    let mut pending = PendingMap::new();
    let mut requests = Vec::new();
    let mut records = Vec::new();
    let mut items: Vec<WebpItem> = (0..5).map(|i| WebpItem::Frame(frame("/in/clip.mp4", i * 10, 5))).collect();
    items.push(WebpItem::ErrFile(ErrFile {
        file: FileItem::new("/in/broken.jpg".to_string()),
        error: "Failed to decode: broken".to_string(),
    }));
    items.push(WebpItem::Frame(frame("/in/a.jpg", 0, 1)));
    for item in items {
        match pending.submit(item, IOU, SCORE) {
            Outbound::Request(request) => requests.push(request),
            Outbound::Export(record) => records.push(record),
        }
    }
    assert_eq!((requests.len(), records.len(), pending.len()), (6, 1, 6));
    // four of the six requests are answered, one of them twice, and one reply names no request
    for at in [3, 0, 5, 0, 1] {
        if let Some(record) = pending.complete(reply(&requests[at].uuid, 2, "deer")) {
            records.push(record);
        }
    }
    assert!(pending.complete(reply("no such id", 2, "deer")).is_none());
    // requests = answers + pending; records = answers + errors
    assert_eq!(pending.len(), 2);
    assert_eq!(records.len(), 4 + 1);
    assert_eq!(records.iter().filter(|r| r.is_detected()).count(), 4);
    assert_eq!(records.iter().filter(|r| r.is_failed()).count(), 1);
    // no frame of a file twice, and one total for a file
    for (i, a) in records.iter().enumerate() {
        for b in &records[i + 1..] {
            if a.file == b.file {
                assert_eq!(a.total_frames, b.total_frames);
                assert_ne!(a.frame_index, b.frame_index);
            }
        }
    }
    let clip: Vec<usize> =
        records.iter().filter(|r| r.file == "/in/clip.mp4").map(|r| r.frame_index).collect();
    assert_eq!(clip, vec![30, 0, 10]);
}
