use megascops::files::{FileItem, MediaKind};
use megascops::media::{
    after_removal_attempt, append_lines, collect_output, err_file, keep_frames, ffmpeg_args, finish_image, handle_ffmpeg_output,
    image_shoot_time, media_worker, process_image, process_video, staging_failed,
    video_shoot_second, DecoderEvent,
    EncodedFrame, ExifTime, ImageStep, LogLevel, MediaError, RetryStep, VideoStep, WebpItem,
    WorkerPlan,
};
use std::io::Cursor;

fn file(path: &str) -> FileItem {
    FileItem::new(path.to_string())
}

fn png(width: u32, height: u32) -> Vec<u8> {
    let img = image::RgbImage::from_fn(width, height, |x, y| image::Rgb([x as u8, y as u8, 77]));
    let mut bytes = Cursor::new(Vec::new());
    image::DynamicImage::ImageRgb8(img).write_to(&mut bytes, image::ImageFormat::Png).unwrap();
    bytes.into_inner()
}

fn error_of(item: WebpItem) -> (String, String) {
    match item {
        WebpItem::ErrFile(e) => (e.file.file_path, e.error),
        WebpItem::Frame(_) => panic!("an error item was expected"),
    }
}

#[test]
fn errors_are_put_in_words() {
    assert_eq!(MediaError::IoError("No such file or directory (os error 2)".to_string()).message(), "Failed to open file: No such file or directory (os error 2)");
    assert_eq!(MediaError::ImageDecodeError("invalid JPEG format: x".to_string()).message(), "Failed to decode: invalid JPEG format: x");
    assert_eq!(MediaError::VideoDecodeError("/in/clip.mp4".to_string()).message(), "Failed to decode: /in/clip.mp4");
    assert_eq!(MediaError::WebpEncodeError("Failed to encode image".to_string()).message(), "Failed to encode: Failed to encode image");
    assert_eq!(
        MediaError::FfmpegError("moov atom not found".to_string(), "/in/clip.mp4".to_string()).message(),
        "Ffmpeg error when decoding /in/clip.mp4: moov atom not found"
    );
}

#[test]
fn an_error_item_names_file_and_error() {
    let staged = file("/in/a.jpg").staged_at("/scratch/a.jpg".to_string());
    match err_file(&staged, &MediaError::IoError("denied".to_string())) {
        WebpItem::ErrFile(e) => {
            assert_eq!(e.file.file_path, "/in/a.jpg");
            assert_eq!(e.file.tmp_path, "/scratch/a.jpg");
            assert_eq!(e.error, "Failed to open file: denied");
        }
        WebpItem::Frame(_) => panic!("an error item was expected"),
    }
}

#[test]
fn a_picture_is_decoded_and_scaled() {
    match process_image(&file("/in/a.png"), &png(30, 20), 128) {
        ImageStep::Encode { width, height, scaled } => {
            assert_eq!((width, height), (30, 20));
            assert_eq!((scaled.width, scaled.height), (128, 86));
            assert_eq!(scaled.pixels.len(), 128 * 86 * 3);
            assert_eq!(&scaled.pixels[..3], &[0, 0, 77]);
        }
        ImageStep::Failed(_) => panic!("the picture decodes"),
    }
}

#[test]
fn a_staged_picture_is_read_by_the_name_of_its_copy() {
    // the copy has the extension of a PNG, the source has none that is known
    let staged = file("/in/a.data").staged_at("/scratch/a.png".to_string());
    match process_image(&staged, &png(4, 4), 8) {
        ImageStep::Encode { width, height, .. } => assert_eq!((width, height), (4, 4)),
        ImageStep::Failed(_) => panic!("the picture decodes"),
    }
}

#[test]
fn a_broken_picture_gives_the_error_item_of_its_file() {
    match process_image(&file("/in/broken.jpg"), b"\xff\xd8", 1280) {
        ImageStep::Failed(item) => {
            let (path, error) = error_of(item);
            assert_eq!(path, "/in/broken.jpg");
            assert!(error.starts_with("Failed to decode: "), "{}", error);
        }
        ImageStep::Encode { .. } => panic!("the picture does not decode"),
    }
    match process_image(&file("/in/text.jpg"), b"hello", 1280) {
        ImageStep::Failed(item) => {
            assert_eq!(
                error_of(item).1,
                "Failed to decode: invalid JPEG format: first two bytes are not an SOI marker"
            );
        }
        ImageStep::Encode { .. } => panic!("the picture does not decode"),
    }
}

#[test]
fn an_encoded_picture_is_frame_zero_of_one() {
    let item = finish_image(&file("/in/a.jpg"), 3000, 2000, Some(vec![1, 2, 3]), Some("2024-05-01 10:00:00 +02:00".to_string()));
    match item {
        WebpItem::Frame(f) => {
            assert_eq!(f.file.file_path, "/in/a.jpg");
            assert_eq!(f.webp, vec![1, 2, 3]);
            assert_eq!((f.width, f.height), (3000, 2000));
            assert_eq!((f.frame_index, f.total_frames), (0, 1));
            assert_eq!(f.shoot_time, Some("2024-05-01 10:00:00 +02:00".to_string()));
            assert!(!f.iframe);
        }
        WebpItem::ErrFile(_) => panic!("a frame was expected"),
    }
}

#[test]
fn a_picture_that_was_not_encoded_gives_an_error_item() {
    let item = finish_image(&file("/in/a.jpg"), 3000, 2000, None, None);
    assert_eq!(error_of(item), ("/in/a.jpg".to_string(), "Failed to encode: Failed to encode image".to_string()));
}

#[test]
fn the_time_a_picture_was_taken_comes_first() {
    let taken = || Some(ExifTime::Zoned("2024-05-01 10:00:00 +02:00".to_string()));
    let changed = || Some(ExifTime::Naive(Some("2024-06-01 12:00:00 +02:00".to_string())));
    assert_eq!(image_shoot_time(taken(), changed()), Some("2024-05-01 10:00:00 +02:00".to_string()));
    assert_eq!(image_shoot_time(None, changed()), Some("2024-06-01 12:00:00 +02:00".to_string()));
    assert_eq!(image_shoot_time(taken(), None), Some("2024-05-01 10:00:00 +02:00".to_string()));
    assert_eq!(image_shoot_time(None, None), None);
}

#[test]
fn an_entry_that_is_no_clear_time_gives_no_shoot_time() {
    let changed = || Some(ExifTime::Zoned("2024-06-01 12:00:00 +02:00".to_string()));
    // the entry of the time taken is used even where it is of no use
    assert_eq!(image_shoot_time(Some(ExifTime::Other), changed()), None);
    assert_eq!(image_shoot_time(Some(ExifTime::Naive(None)), changed()), None);
    assert_eq!(image_shoot_time(None, Some(ExifTime::Other)), None);
}

#[test]
fn the_earlier_time_of_a_video_counts() {
    assert_eq!(video_shoot_second(1700000000, Some(1600000000)), 1600000000);
    assert_eq!(video_shoot_second(1600000000, Some(1700000000)), 1600000000);
    assert_eq!(video_shoot_second(5, Some(5)), 5);
    assert_eq!(video_shoot_second(-10, Some(3)), -10);
    assert_eq!(video_shoot_second(1700000000, None), 1700000000);
    assert_eq!(video_shoot_second(i64::MIN, Some(i64::MAX)), i64::MIN);
}

#[test]
fn the_decoder_is_started_with_these_arguments() {
    assert_eq!(
        ffmpeg_args("/in/clip.mp4", 1280, false),
        vec![
            "-i", "/in/clip.mp4", "-an", "-vf",
            "scale=w=1280:h=1280:force_original_aspect_ratio=decrease",
            "-f", "rawvideo", "-pix_fmt", "rgb24", "-vsync", "vfr", "-",
        ]
    );
}

#[test]
fn key_frames_only_puts_its_directive_before_the_input() {
    assert_eq!(
        ffmpeg_args("/in/my clip.mkv", 640, true),
        vec![
            "-skip_frame", "nokey", "-i", "/in/my clip.mkv", "-an", "-vf",
            "scale=w=640:h=640:force_original_aspect_ratio=decrease",
            "-f", "rawvideo", "-pix_fmt", "rgb24", "-vsync", "vfr", "-",
        ]
    );
}

#[test]
fn a_probed_video_is_to_be_decoded() {
    let staged = file("/in/clip.mp4").staged_at("/scratch/9.mp4".to_string());
    match process_video(&staged, Some("1920x1080\n".to_string()), 1280, true) {
        VideoStep::Decode { width, height, args } => {
            assert_eq!((width, height), (1920, 1080));
            assert_eq!(args, ffmpeg_args("/scratch/9.mp4", 1280, true));
            assert_eq!(args[3], "/scratch/9.mp4");
        }
        VideoStep::Failed(_) => panic!("the probe answered"),
    }
}

#[test]
fn a_video_without_size_gives_the_error_item_of_its_file() {
    for probe in [None, Some(""), Some("N/A"), Some("1920x"), Some("1920x1080x3")] {
        let probe = probe.map(|p| p.to_string());
        match process_video(&file("/in/clip.avi"), probe, 1280, false) {
            VideoStep::Failed(item) => {
                assert_eq!(error_of(item), ("/in/clip.avi".to_string(), "Failed to get video dimensions".to_string()));
            }
            VideoStep::Decode { .. } => panic!("the probe gave no size"),
        }
    }
}

#[test]
fn frames_and_errors_are_sorted_out_of_the_events() {
    let events = vec![
        DecoderEvent::Log(LogLevel::Info, "Stream mapping".to_string()),
        DecoderEvent::OutputFrame(0),
        DecoderEvent::Log(LogLevel::Error, "corrupt packet".to_string()),
        DecoderEvent::Other,
        DecoderEvent::OutputFrame(1),
        DecoderEvent::Log(LogLevel::Warning, "deprecated".to_string()),
        DecoderEvent::Log(LogLevel::Fatal, "fatal".to_string()),
        DecoderEvent::Log(LogLevel::Unknown, "?".to_string()),
        DecoderEvent::Error("decoder stopped".to_string()),
        DecoderEvent::OutputFrame(5),
    ];
    let (frames, errors) = collect_output(&events);
    assert_eq!(frames, vec![0, 1, 5]);
    assert_eq!(errors, vec!["corrupt packet", "decoder stopped"]);
}

#[test]
fn no_events_give_nothing() {
    let (frames, errors) = collect_output(&Vec::new());
    assert!(frames.is_empty());
    assert!(errors.is_empty());
}

#[test]
fn a_video_without_frames_gives_one_error_item() {
    let staged = file("/in/clip.mp4").staged_at("/scratch/clip.mp4".to_string());
    let mut items = handle_ffmpeg_output(&staged, Vec::new(), &Vec::new(), 1920, 1080, false, None);
    assert_eq!(items.len(), 1);
    assert_eq!(error_of(items.remove(0)), ("/in/clip.mp4".to_string(), "Failed to decode: /in/clip.mp4".to_string()));
}

#[test]
fn the_error_of_a_video_holds_what_the_decoder_reported() {
    let errors = vec!["moov atom not found".to_string(), "Invalid data found when processing input".to_string()];
    let mut items = handle_ffmpeg_output(&file("/in/clip.mp4"), Vec::new(), &errors, 0, 0, true, None);
    assert_eq!(items.len(), 1);
    assert_eq!(
        error_of(items.remove(0)).1,
        "Failed to decode: /in/clip.mp4\nmoov atom not found\nInvalid data found when processing input"
    );
}

#[test]
fn lines_are_appended_each_on_its_own() {
    assert_eq!(append_lines("head".to_string(), &Vec::new()), "head");
    assert_eq!(append_lines("head".to_string(), &vec!["a".to_string()]), "head\na");
    assert_eq!(append_lines(String::new(), &vec!["a".to_string(), String::new(), "b".to_string()]), "\na\n\nb");
}

#[test]
fn errors_of_the_decoder_do_not_spoil_a_video_with_frames() {
    let frames = vec![EncodedFrame { frame_num: 3, webp: vec![1] }];
    let errors = vec!["corrupt packet".to_string()];
    let items = handle_ffmpeg_output(&file("/in/clip.mp4"), frames, &errors, 640, 480, false, None);
    assert_eq!(items.len(), 1);
    match &items[0] {
        WebpItem::Frame(f) => assert_eq!((f.frame_index, f.total_frames), (3, 1)),
        WebpItem::ErrFile(_) => panic!("a frame was expected"),
    }
}

#[test]
fn every_encoded_frame_of_a_video_gives_a_frame_item() {
    let frames = vec![
        EncodedFrame { frame_num: 0, webp: vec![10] },
        EncodedFrame { frame_num: 10, webp: vec![20, 21] },
        EncodedFrame { frame_num: 20, webp: vec![30] },
    ];
    let items = handle_ffmpeg_output(&file("/in/clip.mp4"), frames, &Vec::new(), 1920, 1080, true, Some("2024-01-01 00:00:00 +00:00".to_string()));
    assert_eq!(items.len(), 3);
    let mut seen = Vec::new();
    for (item, webp) in items.into_iter().zip([vec![10u8], vec![20, 21], vec![30]]) {
        match item {
            WebpItem::Frame(f) => {
                assert_eq!(f.file.file_path, "/in/clip.mp4");
                assert_eq!(f.webp, webp);
                assert_eq!((f.width, f.height), (1920, 1080));
                assert_eq!(f.total_frames, 3);
                assert_eq!(f.shoot_time, Some("2024-01-01 00:00:00 +00:00".to_string()));
                assert!(f.iframe);
                seen.push(f.frame_index);
            }
            WebpItem::ErrFile(_) => panic!("a frame was expected"),
        }
    }
    assert_eq!(seen, vec![0, 10, 20]);
}

#[test]
fn kept_frames_carry_their_place_and_their_number() {
    let numbers: Vec<u32> = (100..130).collect();
    assert_eq!(keep_frames(&numbers, Some(3)), vec![(0, 100), (10, 110), (20, 120)]);
    assert_eq!(keep_frames(&vec![7, 9], Some(5)), vec![(0, 7), (1, 9)]);
    assert_eq!(keep_frames(&vec![7, 9, 11], None), vec![(0, 7), (1, 9), (2, 11)]);
    assert_eq!(keep_frames(&vec![7, 9, 11], Some(0)), vec![]);
    assert_eq!(keep_frames(&Vec::new(), Some(3)), vec![]);
}

#[test]
fn a_file_is_worked_on_as_its_kind_says() {
    assert_eq!(media_worker(&file("/in/a.JPG")), WorkerPlan { kind: Some(MediaKind::Image), remove_tmp: false, progress: 1 });
    assert_eq!(media_worker(&file("/in/clip.mov")), WorkerPlan { kind: Some(MediaKind::Video), remove_tmp: false, progress: 1 });
}

#[test]
fn a_staged_file_loses_its_copy_after_work() {
    let staged = file("/in/a.png").staged_at("/scratch/a.png".to_string());
    assert_eq!(media_worker(&staged), WorkerPlan { kind: Some(MediaKind::Image), remove_tmp: true, progress: 1 });
}

#[test]
fn a_file_of_another_kind_still_counts_as_done() {
    let staged = file("/in/notes.txt").staged_at("/scratch/notes.txt".to_string());
    assert_eq!(media_worker(&staged), WorkerPlan { kind: None, remove_tmp: true, progress: 1 });
    assert_eq!(media_worker(&file("/in/notes.txt")), WorkerPlan { kind: None, remove_tmp: false, progress: 1 });
}

#[test]
fn a_file_without_extension_is_passed_over() {
    let staged = file("/in/README").staged_at("/scratch/README".to_string());
    assert_eq!(media_worker(&staged), WorkerPlan { kind: None, remove_tmp: false, progress: 0 });
    assert_eq!(media_worker(&file("/in/.jpg")), WorkerPlan { kind: None, remove_tmp: false, progress: 0 });
}

#[test]
fn a_removed_copy_ends_the_attempts() {
    assert_eq!(after_removal_attempt(0, 3, true), RetryStep::Removed);
    assert_eq!(after_removal_attempt(2, 3, true), RetryStep::Removed);
}

#[test]
fn three_attempts_are_made_with_a_delay_between_them() {
    assert_eq!(after_removal_attempt(0, 3, false), RetryStep::RetryAfterDelay);
    assert_eq!(after_removal_attempt(1, 3, false), RetryStep::RetryAfterDelay);
    assert_eq!(after_removal_attempt(2, 3, false), RetryStep::GiveUp);
}

#[test]
fn attempts_beyond_the_limit_are_given_up() {
    assert_eq!(after_removal_attempt(0, 1, false), RetryStep::GiveUp);
    assert_eq!(after_removal_attempt(0, 0, false), RetryStep::GiveUp);
    assert_eq!(after_removal_attempt(7, 3, false), RetryStep::GiveUp);
    assert_eq!(after_removal_attempt(u32::MAX, u32::MAX, false), RetryStep::GiveUp);
    assert_eq!(after_removal_attempt(u32::MAX - 2, u32::MAX, false), RetryStep::RetryAfterDelay);
}

#[test]
fn a_file_that_cannot_be_staged_gets_its_error_item_and_counts_as_done() {
    let source = file("/in/a.jpg");
    let (item, done) = staging_failed(&source, "disk full".to_string());
    assert_eq!(done, 1);
    match item {
        WebpItem::ErrFile(e) => {
            assert_eq!(e.file.file_path, "/in/a.jpg");
            assert_eq!(e.error, "Failed to open file: disk full");
        }
        WebpItem::Frame(_) => panic!("a frame of a file that was not read"),
    }
}
