//! The frame producer. One file gives either frames or one error: a picture
//! gives one frame, a video gives its sampled frames. Reading files, running
//! the video decoder and encoding for transport are done by the caller;
//! what is made of their results is decided here.

use crate::decode::{
    decode_image, decoded_picture, image_decoding, jpeg_decoding, scale_picture, scaled_picture,
    RgbImage, RgbView,
};
use crate::dimensions::{dimensions_of, parse_dimensions};
use crate::files::{extension, extension_start, path_kind, FileItem, FileItemView, MediaKind};
use crate::record::text_of;
use crate::text::{decimal, decimal_text, joined};
use vstd::prelude::*;
use vstd::string::StringExecFns;
use vstd::utf8::encode_utf8;

verus! {

/// One encoded frame on its way to the service. `width` and `height` are those
/// of the media as it lies on disk, not of the encoded picture.
#[derive(Debug)]
pub struct Frame {
    pub file: FileItem,
    pub webp: Vec<u8>,
    pub width: usize,
    pub height: usize,
    pub frame_index: usize,
    pub total_frames: usize,
    pub shoot_time: Option<String>,
    pub iframe: bool,
}

/// A file that gave no frame, with the text of the error that stopped it.
#[derive(Debug)]
pub struct ErrFile {
    pub file: FileItem,
    pub error: String,
}

/// What the frame producer emits.
#[derive(Debug)]
pub enum WebpItem {
    Frame(Frame),
    ErrFile(ErrFile),
}

pub struct FrameView {
    pub file: FileItemView,
    pub webp: Seq<u8>,
    pub width: usize,
    pub height: usize,
    pub frame_index: usize,
    pub total_frames: usize,
    pub shoot_time: Option<Seq<char>>,
    pub iframe: bool,
}

pub struct ErrFileView {
    pub file: FileItemView,
    pub error: Seq<char>,
}

pub enum WebpItemView {
    Frame(FrameView),
    ErrFile(ErrFileView),
}

impl View for Frame {
    type V = FrameView;

    open spec fn view(&self) -> FrameView {
        FrameView {
            file: self.file@,
            webp: self.webp@,
            width: self.width,
            height: self.height,
            frame_index: self.frame_index,
            total_frames: self.total_frames,
            shoot_time: text_of(self.shoot_time),
            iframe: self.iframe,
        }
    }
}

impl View for ErrFile {
    type V = ErrFileView;

    open spec fn view(&self) -> ErrFileView {
        ErrFileView { file: self.file@, error: self.error@ }
    }
}

impl View for WebpItem {
    type V = WebpItemView;

    open spec fn view(&self) -> WebpItemView {
        match self {
            WebpItem::Frame(f) => WebpItemView::Frame(f@),
            WebpItem::ErrFile(e) => WebpItemView::ErrFile(e@),
        }
    }
}

/// What can go wrong with one file.
#[derive(Debug, PartialEq, Eq)]
pub enum MediaError {
    /// The file could not be opened or read; the text is the system's.
    IoError(String),
    /// No decoder made a picture of the file; the text is the decoder's.
    ImageDecodeError(String),
    /// The video gave no frame; the text names the file and holds what the
    /// decoder reported.
    VideoDecodeError(String),
    /// The picture could not be encoded.
    WebpEncodeError(String),
    /// The video decoder reported an error, the first text, while it read
    /// the file at the path that is the second.
    FfmpegError(String, String),
}

impl MediaError {
    /// The error in words.
    pub open spec fn message_text(&self) -> Seq<char> {
        match self {
            MediaError::IoError(e) => "Failed to open file: "@ + e@,
            MediaError::ImageDecodeError(e) => "Failed to decode: "@ + e@,
            MediaError::VideoDecodeError(e) => "Failed to decode: "@ + e@,
            MediaError::WebpEncodeError(e) => "Failed to encode: "@ + e@,
            MediaError::FfmpegError(e, path) => "Ffmpeg error when decoding "@ + path@ + ": "@
                + e@,
        }
    }

    pub fn message(&self) -> (r: String)
        ensures
            r@ == self.message_text(),
    {
        match self {
            MediaError::IoError(e) => joined("Failed to open file: ", e.as_str()),
            MediaError::ImageDecodeError(e) => joined("Failed to decode: ", e.as_str()),
            MediaError::VideoDecodeError(e) => joined("Failed to decode: ", e.as_str()),
            MediaError::WebpEncodeError(e) => joined("Failed to encode: ", e.as_str()),
            MediaError::FfmpegError(e, path) => {
                let mut r = joined("Ffmpeg error when decoding ", path.as_str());
                r.append(": ");
                r.append(e.as_str());
                r
            },
        }
    }
}

/// The item that reports `error` for `file`.
pub fn err_file(file: &FileItem, error: &MediaError) -> (r: WebpItem)
    ensures
        r@ == WebpItemView::ErrFile(ErrFileView { file: file@, error: error.message_text() }),
{
    WebpItem::ErrFile(ErrFile { file: file.clone(), error: error.message() })
}

/// What becomes of a file that could not be copied to the scratch
/// directory, `error` being what the system said: the file gets its error
/// item and counts as one file done.
pub fn staging_failed(file: &FileItem, error: String) -> (r: (WebpItem, usize))
    ensures
        r.0@ == WebpItemView::ErrFile(
            ErrFileView { file: file@, error: "Failed to open file: "@ + error@ },
        ),
        r.1 == 1,
{
    (err_file(file, &MediaError::IoError(error)), 1)
}

/// What is to be done with a picture after it was read.
#[derive(Debug)]
pub enum ImageStep {
    /// The picture did not decode: emit this item.
    Failed(WebpItem),
    /// Encode `scaled`, then call `finish_image` with the size given here,
    /// which is that of the picture as it lies on disk.
    Encode { width: usize, height: usize, scaled: RgbImage },
}

/// What `process_image` makes of a file, given what the two decoders make
/// of its bytes.
pub open spec fn image_step_of(
    decoded: Result<RgbView, Seq<char>>,
    file: FileItemView,
    imgsz: u32,
    step: ImageStep,
) -> bool {
    match decoded {
        Ok(picture) => {
            &&& step matches ImageStep::Encode { width, height, scaled }
            &&& width == picture.width
            &&& height == picture.height
            &&& scaled@ == scaled_picture(picture, imgsz)
            &&& scaled@.well_formed()
        },
        Err(e) => {
            &&& step matches ImageStep::Failed(item)
            &&& item@ == WebpItemView::ErrFile(
                ErrFileView { file, error: "Failed to decode: "@ + e },
            )
        },
    }
}

/// Decodes the picture in `bytes`, the content of the file that `file` is
/// read from, and scales it so that its longer side is `imgsz`. A file that
/// does not decode gives the error item of the file.
pub fn process_image(file: &FileItem, bytes: &[u8], imgsz: u32) -> (step: ImageStep)
    requires
        (imgsz + 1) * (imgsz + 1) * 3 <= isize::MAX,
    ensures
        image_step_of(
            decoded_picture(
                image_decoding(bytes@, file@.tmp_path),
                jpeg_decoding(bytes@),
            ),
            file@,
            imgsz,
            step,
        ),
{
    match decode_image(bytes, file.tmp_path.as_str()) {
        Ok(picture) => {
            let scaled = scale_picture(&picture, imgsz);
            ImageStep::Encode {
                width: picture.width as usize,
                height: picture.height as usize,
                scaled,
            }
        },
        Err(e) => ImageStep::Failed(err_file(file, &MediaError::ImageDecodeError(e))),
    }
}

/// The item of a picture: the frame, where the picture was encoded, and the
/// error item of the file where it was not. A picture is frame 0 of 1, and
/// no key frame.
pub fn finish_image(
    file: &FileItem,
    width: usize,
    height: usize,
    webp: Option<Vec<u8>>,
    shoot_time: Option<String>,
) -> (item: WebpItem)
    ensures
        item@ == match webp {
            Some(bytes) => WebpItemView::Frame(
                FrameView {
                    file: file@,
                    webp: bytes@,
                    width,
                    height,
                    frame_index: 0,
                    total_frames: 1,
                    shoot_time: text_of(shoot_time),
                    iframe: false,
                },
            ),
            None => WebpItemView::ErrFile(
                ErrFileView {
                    file: file@,
                    error: "Failed to encode: "@ + "Failed to encode image"@,
                },
            ),
        },
{
    match webp {
        Some(bytes) => WebpItem::Frame(
            Frame {
                file: file.clone(),
                webp: bytes,
                width,
                height,
                frame_index: 0,
                total_frames: 1,
                shoot_time,
                iframe: false,
            },
        ),
        None => err_file(
            file,
            &MediaError::WebpEncodeError(String::from_str("Failed to encode image")),
        ),
    }
}

/// A time that a picture's metadata holds, as the caller has read it.
#[derive(Debug, PartialEq, Eq)]
pub enum ExifTime {
    /// A time with its zone, written in local time.
    Zoned(String),
    /// A time without zone, written in local time where the local clock
    /// shows that time exactly once.
    Naive(Option<String>),
    /// Something that is no time.
    Other,
}

/// The shoot time of a picture: the time it was taken, and where the
/// metadata has none, the time it was changed. There is none where the
/// entry is no time, or is a time that the local clock shows twice or
/// never.
pub fn image_shoot_time(taken: Option<ExifTime>, modified: Option<ExifTime>) -> (r: Option<
    String,
>)
    ensures
        r == match (match taken {
            Some(t) => Some(t),
            None => modified,
        }) {
            Some(ExifTime::Zoned(t)) => Some(t),
            Some(ExifTime::Naive(t)) => t,
            Some(ExifTime::Other) => None,
            None => None,
        },
{
    let entry = match taken {
        Some(t) => Some(t),
        None => modified,
    };
    match entry {
        Some(ExifTime::Zoned(t)) => Some(t),
        Some(ExifTime::Naive(t)) => t,
        Some(ExifTime::Other) => None,
        None => None,
    }
}

/// The second that counts as the shoot time of a video: the earlier of the
/// times of its last change of content and of status, and the former where
/// the system keeps no latter.
pub fn video_shoot_second(modified: i64, changed: Option<i64>) -> (r: i64)
    ensures
        r == match changed {
            Some(c) => if c < modified {
                c
            } else {
                modified
            },
            None => modified,
        },
{
    match changed {
        Some(c) => if c < modified {
            c
        } else {
            modified
        },
        None => modified,
    }
}

/// The filter that makes the video decoder scale its frames into a square
/// of `imgsz`.
pub open spec fn scale_filter(imgsz: nat) -> Seq<char> {
    "scale=w="@ + decimal(imgsz) + ":h="@ + decimal(imgsz) + ":force_original_aspect_ratio=decrease"@
}

/// The arguments of the video decoder for the file at `video_path`: key
/// frames only where `iframe` is set; no audio; frames scaled into a square
/// of `imgsz`, as raw RGB of 24 bits, at the rate they have in the file; to
/// the standard output.
pub open spec fn decoder_arguments(video_path: Seq<char>, imgsz: nat, iframe: bool) -> Seq<
    Seq<char>,
> {
    (if iframe {
        seq!["-skip_frame"@, "nokey"@]
    } else {
        Seq::empty()
    }) + seq![
        "-i"@,
        video_path,
        "-an"@,
        "-vf"@,
        scale_filter(imgsz),
        "-f"@,
        "rawvideo"@,
        "-pix_fmt"@,
        "rgb24"@,
        "-vsync"@,
        "vfr"@,
        "-"@,
    ]
}

pub open spec fn texts(args: Seq<String>) -> Seq<Seq<char>> {
    args.map_values(|a: String| a@)
}

/// The arguments with which the video decoder is started.
pub fn ffmpeg_args(video_path: &str, imgsz: usize, iframe: bool) -> (args: Vec<String>)
    ensures
        texts(args@) == decoder_arguments(video_path@, imgsz as nat, iframe),
{
    let mut args: Vec<String> = Vec::new();
    if iframe {
        args.push(String::from_str("-skip_frame"));
        args.push(String::from_str("nokey"));
    }
    let size = decimal_text(imgsz);
    let mut filter = joined("scale=w=", size.as_str());
    filter.append(":h=");
    filter.append(size.as_str());
    filter.append(":force_original_aspect_ratio=decrease");
    args.push(String::from_str("-i"));
    args.push(String::from_str(video_path));
    args.push(String::from_str("-an"));
    args.push(String::from_str("-vf"));
    args.push(filter);
    args.push(String::from_str("-f"));
    args.push(String::from_str("rawvideo"));
    args.push(String::from_str("-pix_fmt"));
    args.push(String::from_str("rgb24"));
    args.push(String::from_str("-vsync"));
    args.push(String::from_str("vfr"));
    args.push(String::from_str("-"));
    args
}

/// What is to be done with a video after the stream probe has answered.
#[derive(Debug)]
pub enum VideoStep {
    /// The size of the video is not known: emit this item.
    Failed(WebpItem),
    /// Run the video decoder with `args`; `width` and `height` are the size
    /// of the video as it lies on disk.
    Decode { width: usize, height: usize, args: Vec<String> },
}

/// The size that the probe's answer gives, if the probe answered.
pub open spec fn probed_size(probe: Option<Seq<char>>) -> Option<(usize, usize)> {
    match probe {
        Some(output) => dimensions_of(output),
        None => None,
    }
}

/// Starts on a video: `probe` is what the stream probe printed for the
/// file, or `None` where it could not be run or printed what is no text. Where it gives the size of
/// the video, the decoder is to be run; where it does not, the file gets its
/// error item.
pub fn process_video(file: &FileItem, probe: Option<String>, imgsz: usize, iframe: bool) -> (step:
    VideoStep)
    ensures
        match probed_size(text_of(probe)) {
            Some((w, h)) => {
                &&& step matches VideoStep::Decode { width, height, args }
                &&& width == w
                &&& height == h
                &&& texts(args@) == decoder_arguments(file@.tmp_path, imgsz as nat, iframe)
            },
            None => {
                &&& step matches VideoStep::Failed(item)
                &&& item@ == WebpItemView::ErrFile(
                    ErrFileView { file: file@, error: "Failed to get video dimensions"@ },
                )
            },
        },
{
    let size = match &probe {
        Some(output) => parse_dimensions(output.as_str()),
        None => None,
    };
    match size {
        Some((width, height)) => VideoStep::Decode {
            width,
            height,
            args: ffmpeg_args(file.tmp_path.as_str(), imgsz, iframe),
        },
        None => VideoStep::Failed(
            WebpItem::ErrFile(
                ErrFile {
                    file: file.clone(),
                    error: String::from_str("Failed to get video dimensions"),
                },
            ),
        ),
    }
}

/// How many frames are kept of `n` under the limit `max_frames`.
pub open spec fn limit_of(n: nat, max_frames: Option<usize>) -> nat {
    match max_frames {
        Some(k) => k as nat,
        None => n,
    }
}

/// The frames of a video that are encoded, where the decoder gave frames
/// with the numbers `numbers`: for each frame that even sampling keeps,
/// its place among the decoder's frames and the number it carries.
pub open spec fn kept_frames(numbers: Seq<u32>, max_frames: Option<usize>) -> Seq<(usize, u32)> {
    let picks = crate::sampling::sampled(numbers.len(), limit_of(numbers.len(), max_frames));
    Seq::new(picks.len(), |i: int| (picks[i] as usize, numbers[picks[i] as int]))
}

/// Picks the frames to encode from the numbers of the frames that the
/// decoder gave.
pub fn keep_frames(numbers: &Vec<u32>, max_frames: Option<usize>) -> (r: Vec<(usize, u32)>)
    ensures
        r@ == kept_frames(numbers@, max_frames),
        forall|i: int| 0 <= i < r@.len() ==> (#[trigger] r@[i]).0 < numbers@.len(),
{
    let picks = crate::sampling::select_frames(numbers.len(), max_frames);
    let ghost want = crate::sampling::sampled(
        numbers@.len(),
        limit_of(numbers@.len(), max_frames),
    );
    let mut r: Vec<(usize, u32)> = Vec::new();
    let mut i: usize = 0;
    while i < picks.len()
        invariant
            i <= picks@.len(),
            picks@.map_values(|x: usize| x as nat) == want,
            forall|j: int| 0 <= j < picks@.len() ==> #[trigger] picks@[j] < numbers@.len(),
            r@.len() == i,
            forall|j: int|
                0 <= j < i ==> #[trigger] r@[j] == (want[j] as usize, numbers@[want[j] as int]),
        decreases picks@.len() - i,
    {
        let at = picks[i];
        proof {
            assert(picks@.map_values(|x: usize| x as nat)[i as int] == at as nat);
        }
        r.push((at, numbers[at]));
        i = i + 1;
    }
    proof {
        assert(picks@.map_values(|x: usize| x as nat).len() == picks@.len());
        assert(r@ =~= kept_frames(numbers@, max_frames));
    }
    r
}

/// One sampled frame of a video after encoding: the number that the
/// decoder gave the frame, and the encoded picture.
#[derive(Debug)]
pub struct EncodedFrame {
    pub frame_num: u32,
    pub webp: Vec<u8>,
}

/// The item of the `i`-th encoded frame of a video.
pub open spec fn video_frame(
    file: FileItemView,
    frames: Seq<EncodedFrame>,
    i: int,
    width: usize,
    height: usize,
    iframe: bool,
    shoot_time: Option<Seq<char>>,
) -> WebpItemView {
    WebpItemView::Frame(
        FrameView {
            file,
            webp: frames[i].webp@,
            width,
            height,
            frame_index: frames[i].frame_num as usize,
            total_frames: frames.len() as usize,
            shoot_time,
            iframe,
        },
    )
}

/// `text`, and after it each of `lines` on a line of its own.
pub open spec fn with_lines(text: Seq<char>, lines: Seq<Seq<char>>) -> Seq<char>
    decreases lines.len(),
{
    if lines.len() == 0 {
        text
    } else {
        with_lines(text, lines.drop_last()) + "\n"@ + lines.last()
    }
}

/// The items of a video whose sampled and encoded frames are `frames`: one
/// frame item for each, in order, each with the number of frames as its
/// total. Where there is no frame, the file gets its error item, whose text
/// names the file and holds the errors that the decoder reported.
pub open spec fn video_items(
    file: FileItemView,
    frames: Seq<EncodedFrame>,
    errors: Seq<Seq<char>>,
    width: usize,
    height: usize,
    iframe: bool,
    shoot_time: Option<Seq<char>>,
) -> Seq<WebpItemView> {
    if frames.len() == 0 {
        seq![
            WebpItemView::ErrFile(
                ErrFileView {
                    file,
                    error: "Failed to decode: "@ + with_lines(file.file_path, errors),
                },
            ),
        ]
    } else {
        Seq::new(
            frames.len(),
            |i: int| video_frame(file, frames, i, width, height, iframe, shoot_time),
        )
    }
}

pub open spec fn item_views(items: Seq<WebpItem>) -> Seq<WebpItemView> {
    items.map_values(|i: WebpItem| i@)
}

/// Writes each of `lines` after `text`, on a line of its own.
pub fn append_lines(text: String, lines: &Vec<String>) -> (r: String)
    ensures
        r@ == with_lines(text@, texts(lines@)),
{
    let mut r = text;
    let ghost start = r@;
    let mut i: usize = 0;
    while i < lines.len()
        invariant
            i <= lines@.len(),
            r@ == with_lines(start, texts(lines@).take(i as int)),
        decreases lines@.len() - i,
    {
        proof {
            assert(texts(lines@).take(i + 1).drop_last() =~= texts(lines@).take(i as int));
        }
        r.append("\n");
        r.append(lines[i].as_str());
        i = i + 1;
    }
    proof {
        assert(texts(lines@).take(i as int) =~= texts(lines@));
    }
    r
}

/// Makes the items of a video from its sampled and encoded frames and
/// from the errors that the decoder reported.
pub fn handle_ffmpeg_output(
    file: &FileItem,
    frames: Vec<EncodedFrame>,
    errors: &Vec<String>,
    width: usize,
    height: usize,
    iframe: bool,
    shoot_time: Option<String>,
) -> (items: Vec<WebpItem>)
    ensures
        item_views(items@) == video_items(
            file@,
            frames@,
            texts(errors@),
            width,
            height,
            iframe,
            text_of(shoot_time),
        ),
{
    let mut items: Vec<WebpItem> = Vec::new();
    let total = frames.len();
    if total == 0 {
        let cause = append_lines(file.file_path.clone(), errors);
        items.push(err_file(file, &MediaError::VideoDecodeError(cause)));
        proof {
            assert(item_views(items@) =~= video_items(
                file@,
                frames@,
                texts(errors@),
                width,
                height,
                iframe,
                text_of(shoot_time),
            ));
        }
        return items;
    }
    let ghost all = frames@;
    for frame in it: frames.into_iter()
        invariant
            all == it.seq(),
            total == all.len(),
            items@.len() == it.index(),
            forall|j: int|
                0 <= j < it.index() ==> (#[trigger] items@[j])@ == video_frame(
                    file@,
                    all,
                    j,
                    width,
                    height,
                    iframe,
                    text_of(shoot_time),
                ),
    {
        items.push(
            WebpItem::Frame(
                Frame {
                    file: file.clone(),
                    webp: frame.webp,
                    width,
                    height,
                    frame_index: frame.frame_num as usize,
                    total_frames: total,
                    shoot_time: crate::record::clone_text(&shoot_time),
                    iframe,
                },
            ),
        );
    }
    proof {
        assert(item_views(items@) =~= video_items(
            file@,
            all,
            texts(errors@),
            width,
            height,
            iframe,
            text_of(shoot_time),
        ));
    }
    items
}

/// `items` are the items of the file at `path`, as a file gives them: one
/// error item, or frames that announce their number as the total and
/// differ in their index.
pub open spec fn file_items(items: Seq<WebpItemView>, path: Seq<char>) -> bool {
    ||| items.len() == 1 && items[0] is ErrFile && items[0]->ErrFile_0.file.file_path == path
    ||| {
        &&& forall|m: int|
            0 <= m < items.len() ==> (#[trigger] items[m]) is Frame
                && items[m]->Frame_0.file.file_path == path && items[m]->Frame_0.total_frames
                == items.len()
        &&& forall|m: int, n: int|
            0 <= m < n < items.len() ==> (#[trigger] items[m])->Frame_0.frame_index != (
            #[trigger] items[n])->Frame_0.frame_index
    }
}

/// What `handle_ffmpeg_output` makes of a video are the items of a file,
/// where the decoder gave each frame its own number.
pub proof fn lemma_video_gives_file_items(
    file: FileItemView,
    frames: Seq<EncodedFrame>,
    errors: Seq<Seq<char>>,
    width: usize,
    height: usize,
    iframe: bool,
    shoot_time: Option<Seq<char>>,
)
    requires
        frames.len() <= usize::MAX,
        forall|i: int, j: int|
            0 <= i < j < frames.len() ==> (#[trigger] frames[i]).frame_num != (
            #[trigger] frames[j]).frame_num,
    ensures
        file_items(
            video_items(file, frames, errors, width, height, iframe, shoot_time),
            file.file_path,
        ),
{
    if frames.len() > 0 {
        lemma_video_frames_distinct(file, frames, errors, width, height, iframe, shoot_time);
    }
}

/// What `finish_image` makes of a picture, or `err_file` of an error, is
/// by itself the items of a file.
pub proof fn lemma_one_item_gives_file_items(item: WebpItemView, path: Seq<char>)
    requires
        match item {
            WebpItemView::Frame(frame) => frame.file.file_path == path && frame.total_frames == 1,
            WebpItemView::ErrFile(e) => e.file.file_path == path,
        },
    ensures
        file_items(seq![item], path),
{
}

/// A video gives frames or one error, never both: its items are frame
/// items, at least one, or they are a single error item.
pub proof fn lemma_frames_or_one_error(
    file: FileItemView,
    frames: Seq<EncodedFrame>,
    errors: Seq<Seq<char>>,
    width: usize,
    height: usize,
    iframe: bool,
    shoot_time: Option<Seq<char>>,
)
    ensures
        ({
            let items = video_items(file, frames, errors, width, height, iframe, shoot_time);
            if frames.len() == 0 {
                items.len() == 1 && items[0] is ErrFile
            } else {
                items.len() == frames.len() && forall|i: int|
                    0 <= i < items.len() ==> (#[trigger] items[i]) is Frame
            }
        }),
{
}

/// The frames of one video are counted and told apart: where the decoder
/// gave each frame its own number, the video's items are frames that all
/// announce their number as the total and that differ in their index.
pub proof fn lemma_video_frames_distinct(
    file: FileItemView,
    frames: Seq<EncodedFrame>,
    errors: Seq<Seq<char>>,
    width: usize,
    height: usize,
    iframe: bool,
    shoot_time: Option<Seq<char>>,
)
    requires
        0 < frames.len() <= usize::MAX,
        forall|i: int, j: int|
            0 <= i < j < frames.len() ==> (#[trigger] frames[i]).frame_num != (
            #[trigger] frames[j]).frame_num,
    ensures
        ({
            let items = video_items(file, frames, errors, width, height, iframe, shoot_time);
            &&& items.len() == frames.len()
            &&& forall|i: int|
                0 <= i < items.len() ==> (#[trigger] items[i]) is Frame
                    && items[i]->Frame_0.total_frames == items.len()
            &&& forall|i: int, j: int|
                0 <= i < j < items.len() ==> (#[trigger] items[i])->Frame_0.frame_index != (
                #[trigger] items[j])->Frame_0.frame_index
        }),
{
    let items = video_items(file, frames, errors, width, height, iframe, shoot_time);
    assert forall|i: int, j: int| 0 <= i < j < items.len() implies (
    #[trigger] items[i])->Frame_0.frame_index != (#[trigger] items[j])->Frame_0.frame_index by {
    }
}

/// Sampling keeps numbers apart: where the decoder numbered its `n` frames
/// in rising order, the frames that are kept for a limit of `k` have
/// numbers in rising order too, so no two of them share one.
pub proof fn lemma_sampled_numbers_rise(numbers: Seq<u32>, k: nat, i: int, j: int)
    requires
        forall|a: int, b: int|
            0 <= a < b < numbers.len() ==> #[trigger] numbers[a] < #[trigger] numbers[b],
        0 <= i < j < crate::sampling::sampled(numbers.len(), k).len(),
    ensures
        crate::sampling::sampled(numbers.len(), k)[i] < crate::sampling::sampled(
            numbers.len(),
            k,
        )[j] < numbers.len(),
        numbers[crate::sampling::sampled(numbers.len(), k)[i] as int] < numbers[crate::sampling::sampled(
            numbers.len(),
            k,
        )[j] as int],
{
    crate::sampling::lemma_sampled_evenly(numbers.len(), k);
}

/// How loud a line of the video decoder's log is.
#[derive(Clone, Copy, Debug, PartialEq, Eq, Structural)]
pub enum LogLevel {
    Info,
    Warning,
    Error,
    Fatal,
    Unknown,
}

/// What the video decoder reports while it runs, as far as it matters here.
#[derive(Debug, PartialEq, Eq)]
pub enum DecoderEvent {
    /// The decoder failed; the text says how.
    Error(String),
    /// A line of the log.
    Log(LogLevel, String),
    /// A frame came out; the number is the one the decoder gave it.
    OutputFrame(u32),
    /// Anything else.
    Other,
}

/// The numbers of the frames among `events`, in order.
pub open spec fn frame_numbers(events: Seq<DecoderEvent>) -> Seq<u32>
    decreases events.len(),
{
    if events.len() == 0 {
        Seq::empty()
    } else {
        let front = frame_numbers(events.drop_last());
        match events.last() {
            DecoderEvent::OutputFrame(n) => front.push(n),
            _ => front,
        }
    }
}

/// The texts of the errors among `events`, in order: of the failures, and
/// of the log lines at the level of an error.
pub open spec fn error_lines(events: Seq<DecoderEvent>) -> Seq<Seq<char>>
    decreases events.len(),
{
    if events.len() == 0 {
        Seq::empty()
    } else {
        let front = error_lines(events.drop_last());
        match events.last() {
            DecoderEvent::Error(e) => front.push(e@),
            DecoderEvent::Log(LogLevel::Error, e) => front.push(e@),
            _ => front,
        }
    }
}

/// Sorts what the video decoder reported into the frames that came out and
/// the errors it met.
pub fn collect_output(events: &Vec<DecoderEvent>) -> (r: (Vec<u32>, Vec<String>))
    ensures
        r.0@ == frame_numbers(events@),
        texts(r.1@) == error_lines(events@),
{
    let mut frames: Vec<u32> = Vec::new();
    let mut errors: Vec<String> = Vec::new();
    let mut i: usize = 0;
    while i < events.len()
        invariant
            i <= events@.len(),
            frames@ == frame_numbers(events@.take(i as int)),
            texts(errors@) == error_lines(events@.take(i as int)),
        decreases events@.len() - i,
    {
        proof {
            assert(events@.take(i + 1).drop_last() =~= events@.take(i as int));
        }
        match &events[i] {
            DecoderEvent::Error(e) => {
                errors.push(e.clone());
            },
            DecoderEvent::Log(LogLevel::Error, e) => {
                errors.push(e.clone());
            },
            DecoderEvent::OutputFrame(n) => {
                frames.push(*n);
            },
            _ => {},
        }
        i = i + 1;
    }
    proof {
        assert(events@.take(i as int) =~= events@);
    }
    (frames, errors)
}

/// What the worker does with one file.
#[derive(Clone, Copy, Debug, PartialEq, Eq, Structural)]
pub struct WorkerPlan {
    /// How the file is to be processed, if at all.
    pub kind: Option<MediaKind>,
    /// Whether the copy that the file was read from is to be removed after.
    pub remove_tmp: bool,
    /// By how much the count of finished files goes up.
    pub progress: usize,
}

/// The plan for a file whose path is `path` and which is staged or not.
pub open spec fn worker_plan(path: Seq<char>, staged: bool) -> WorkerPlan {
    if extension(encode_utf8(path)) is Some {
        WorkerPlan { kind: path_kind(path), remove_tmp: staged, progress: 1 }
    } else {
        WorkerPlan { kind: None, remove_tmp: false, progress: 0 }
    }
}

/// Plans the work on one file. A file with an extension is processed as
/// its kind says, loses its staged copy, and counts as one file done,
/// whether or not its extension is a recognized one. A file without an
/// extension is passed over. Only a copy is ever named for removal, never
/// the file where it lies.
pub fn media_worker(file: &FileItem) -> (plan: WorkerPlan)
    ensures
        plan == worker_plan(file@.file_path, file.is_staged()),
        plan.remove_tmp ==> file@.tmp_path != file@.file_path,
{
    match extension_start(file.file_path.as_str().as_bytes()) {
        Some(_) => WorkerPlan { kind: file.kind(), remove_tmp: file.staged(), progress: 1 },
        None => WorkerPlan { kind: None, remove_tmp: false, progress: 0 },
    }
}

/// What follows an attempt to remove a staged copy.
#[derive(Clone, Copy, Debug, PartialEq, Eq, Structural)]
pub enum RetryStep {
    /// The copy is gone.
    Removed,
    /// Wait for the delay, then try again.
    RetryAfterDelay,
    /// Leave the copy where it is; this is logged and stops nothing.
    GiveUp,
}

/// Judges the attempt that followed `failed_before` failed ones, where
/// `max_retries` attempts are made at most: a failure is followed by a
/// further attempt as long as attempts are left.
pub fn after_removal_attempt(failed_before: u32, max_retries: u32, removed: bool) -> (r: RetryStep)
    ensures
        r == if removed {
            RetryStep::Removed
        } else if failed_before + 1 < max_retries {
            RetryStep::RetryAfterDelay
        } else {
            RetryStep::GiveUp
        },
{
    if removed {
        RetryStep::Removed
    } else if failed_before < max_retries && failed_before + 1 < max_retries {
        RetryStep::RetryAfterDelay
    } else {
        RetryStep::GiveUp
    }
}

} // verus!
