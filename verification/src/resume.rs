//! Resuming from a checkpoint. A file is complete in a checkpoint when the
//! checkpoint holds as many records of it as the file's first record
//! announces. Complete files are not processed again; every other file is
//! processed again from its start.

use crate::bridge::{sends_unused, BridgeEvent};
use crate::export::{CheckpointBuffer, ExportFormat};
use crate::files::{
    ends_in_word, extension, extension_start, extension_text, file_paths, FileItem,
};
use crate::media::WebpItemView;
use crate::record::{record_views, ExportFrame, ExportFrameView};
use crate::run::{
    exported, frames_sent_once, gives_items, lemma_items_sent_once, lemma_run_names,
    lemma_run_within_totals, names_among, totals_cover,
};
use crate::text::joined;
use vstd::hash_map::StringHashMap;
use vstd::prelude::*;
use vstd::string::StringExecFns;
use vstd::utf8::{decode_utf8, encode_utf8};

verus! {

/// How many of `records` name `file`.
pub open spec fn seen_count(records: Seq<ExportFrameView>, file: Seq<char>) -> nat
    decreases records.len(),
{
    if records.len() == 0 {
        0
    } else {
        seen_count(records.drop_last(), file) + if records.last().file == file {
            1nat
        } else {
            0nat
        }
    }
}

/// The `total_frames` of the first of `records` that names `file`.
pub open spec fn expected_total(records: Seq<ExportFrameView>, file: Seq<char>) -> Option<usize>
    decreases records.len(),
{
    if records.len() == 0 {
        None
    } else {
        match expected_total(records.drop_last(), file) {
            Some(t) => Some(t),
            None => if records.last().file == file {
                Some(records.last().total_frames)
            } else {
                None
            },
        }
    }
}

/// `file` is complete in `records`: a record names it, and the number of
/// its records is the total that the first of them announces.
pub open spec fn is_complete(records: Seq<ExportFrameView>, file: Seq<char>) -> bool {
    match expected_total(records, file) {
        Some(t) => t == seen_count(records, file),
        None => false,
    }
}

/// The files that are still to be processed.
pub open spec fn remaining_files(records: Seq<ExportFrameView>, files: Seq<FileItem>) -> Seq<
    FileItem,
> {
    files.filter(|f: FileItem| !is_complete(records, f@.file_path))
}

pub proof fn lemma_seen_count_bounded(records: Seq<ExportFrameView>, file: Seq<char>)
    ensures
        seen_count(records, file) <= records.len(),
    decreases records.len(),
{
    if records.len() > 0 {
        lemma_seen_count_bounded(records.drop_last(), file);
    }
}

/// A file has an expected total exactly where a record names it.
pub proof fn lemma_total_where_seen(records: Seq<ExportFrameView>, file: Seq<char>)
    ensures
        expected_total(records, file) is Some <==> seen_count(records, file) > 0,
    decreases records.len(),
{
    if records.len() > 0 {
        lemma_total_where_seen(records.drop_last(), file);
    }
}

/// Counts and first totals of every file that `frames` names.
fn tally(frames: &Vec<ExportFrame>) -> (r: (StringHashMap<usize>, StringHashMap<usize>))
    ensures
        forall|p: Seq<char>|
            r.0@.contains_key(p) <==> seen_count(record_views(frames@), p) > 0,
        forall|p: Seq<char>|
            r.0@.contains_key(p) ==> r.0@[p] == seen_count(record_views(frames@), p),
        forall|p: Seq<char>|
            r.1@.contains_key(p) <==> expected_total(record_views(frames@), p) is Some,
        forall|p: Seq<char>|
            r.1@.contains_key(p) ==> Some(r.1@[p]) == expected_total(record_views(frames@), p),
{
    let mut counts: StringHashMap<usize> = StringHashMap::new();
    let mut totals: StringHashMap<usize> = StringHashMap::new();
    let ghost views = record_views(frames@);
    let mut i: usize = 0;
    while i < frames.len()
        invariant
            i <= frames@.len(),
            views == record_views(frames@),
            forall|p: Seq<char>| counts@.contains_key(p) <==> seen_count(views.take(i as int), p) > 0,
            forall|p: Seq<char>|
                counts@.contains_key(p) ==> counts@[p] == seen_count(views.take(i as int), p),
            forall|p: Seq<char>|
                totals@.contains_key(p) <==> expected_total(views.take(i as int), p) is Some,
            forall|p: Seq<char>|
                totals@.contains_key(p) ==> Some(totals@[p]) == expected_total(
                    views.take(i as int),
                    p,
                ),
        decreases frames@.len() - i,
    {
        let frame = &frames[i];
        proof {
            assert(views.take(i + 1).drop_last() =~= views.take(i as int));
            lemma_seen_count_bounded(views.take(i as int), frame.file@);
        }
        let count: usize = match counts.get(frame.file.as_str()) {
            Some(c) => *c + 1,
            None => 1,
        };
        counts.insert(frame.file.clone(), count);
        if !totals.contains_key(frame.file.as_str()) {
            totals.insert(frame.file.clone(), frame.total_frames);
        }
        i = i + 1;
    }
    proof {
        assert(views.take(i as int) =~= views);
    }
    (counts, totals)
}

/// Whether `file` is complete in the records that were tallied.
fn complete_in(counts: &StringHashMap<usize>, totals: &StringHashMap<usize>, file: &str) -> (r:
    bool)
    ensures
        r == match (
            if totals@.contains_key(file@) {
                Some(totals@[file@])
            } else {
                None
            },
            if counts@.contains_key(file@) {
                Some(counts@[file@])
            } else {
                None
            },
        ) {
            (Some(t), Some(c)) => t == c,
            _ => false,
        },
{
    match (totals.get(file), counts.get(file)) {
        (Some(t), Some(c)) => *t == *c,
        _ => false,
    }
}

/// The files of `all_files` that the checkpoint `frames` leaves to be
/// processed, in their order: those that are not complete in it.
pub fn resume_from_checkpoint(frames: &Vec<ExportFrame>, all_files: &Vec<FileItem>) -> (remaining:
    Vec<FileItem>)
    ensures
        remaining@ == remaining_files(record_views(frames@), all_files@),
{
    let (counts, totals) = tally(frames);
    let ghost views = record_views(frames@);
    let ghost keep = |f: FileItem| !is_complete(views, f@.file_path);
    let mut remaining: Vec<FileItem> = Vec::new();
    let mut i: usize = 0;
    while i < all_files.len()
        invariant
            i <= all_files@.len(),
            views == record_views(frames@),
            keep == |f: FileItem| !is_complete(views, f@.file_path),
            remaining@ == all_files@.take(i as int).filter(keep),
            forall|p: Seq<char>| counts@.contains_key(p) <==> seen_count(views, p) > 0,
            forall|p: Seq<char>| counts@.contains_key(p) ==> counts@[p] == seen_count(views, p),
            forall|p: Seq<char>| totals@.contains_key(p) <==> expected_total(views, p) is Some,
            forall|p: Seq<char>|
                totals@.contains_key(p) ==> Some(totals@[p]) == expected_total(views, p),
        decreases all_files@.len() - i,
    {
        let file = &all_files[i];
        proof {
            let p = file@.file_path;
            lemma_total_where_seen(views, p);
            assert(all_files@.take(i + 1).drop_last() =~= all_files@.take(i as int));
            reveal_with_fuel(Seq::filter, 2);
        }
        if !complete_in(&counts, &totals, file.file_path.as_str()) {
            remaining.push(file.clone());
        }
        i = i + 1;
    }
    proof {
        assert(all_files@.take(i as int) =~= all_files@);
    }
    remaining
}

/// Takes up a checkpoint: appends its records `loaded` to `buffer`, after
/// what the buffer holds, each once and in their order, and gives the
/// files of `all_files` that the checkpoint leaves to be processed.
pub fn resume_into(
    buffer: &mut CheckpointBuffer,
    loaded: Vec<ExportFrame>,
    all_files: &Vec<FileItem>,
) -> (remaining: Vec<FileItem>)
    ensures
        remaining@ == remaining_files(record_views(loaded@), all_files@),
        final(buffer).records() == old(buffer).records() + record_views(loaded@),
        final(buffer).interval() == old(buffer).interval(),
        final(buffer).received() == old(buffer).received(),
        final(buffer).checkpoint() == old(buffer).checkpoint(),
{
    let remaining = resume_from_checkpoint(&loaded, all_files);
    buffer.extend(loaded);
    remaining
}

/// Why a checkpoint cannot be resumed from.
#[derive(Debug, PartialEq, Eq)]
pub enum ResumeError {
    /// There is nothing at the path.
    NotFound,
    /// What is at the path is no file.
    NotAFile,
    /// The path's extension, which is held here, is neither `json` nor
    /// `csv`.
    InvalidExtension(String),
    /// The path has no extension.
    NoExtension,
}

/// A `ResumeError` with its text as a sequence of characters.
pub enum ResumeErrorView {
    NotFound,
    NotAFile,
    InvalidExtension(Seq<char>),
    NoExtension,
}

impl View for ResumeError {
    type V = ResumeErrorView;

    open spec fn view(&self) -> ResumeErrorView {
        match self {
            ResumeError::NotFound => ResumeErrorView::NotFound,
            ResumeError::NotAFile => ResumeErrorView::NotAFile,
            ResumeError::InvalidExtension(e) => ResumeErrorView::InvalidExtension(e@),
            ResumeError::NoExtension => ResumeErrorView::NoExtension,
        }
    }
}

impl ResumeErrorView {
    /// The error in words.
    pub open spec fn message_text(&self) -> Seq<char> {
        match self {
            ResumeErrorView::NotFound => "Checkpoint file does not exist"@,
            ResumeErrorView::NotAFile => "Checkpoint path is not a file"@,
            ResumeErrorView::InvalidExtension(e) => "Invalid checkpoint file extension: "@ + *e,
            ResumeErrorView::NoExtension => "Invalid checkpoint file extension"@,
        }
    }
}

impl ResumeError {
    /// The error in words.
    pub fn message(&self) -> (r: String)
        ensures
            r@ == self@.message_text(),
    {
        match self {
            ResumeError::NotFound => String::from_str("Checkpoint file does not exist"),
            ResumeError::NotAFile => String::from_str("Checkpoint path is not a file"),
            ResumeError::InvalidExtension(e) => joined(
                "Invalid checkpoint file extension: ",
                e.as_str(),
            ),
            ResumeError::NoExtension => String::from_str("Invalid checkpoint file extension"),
        }
    }
}

/// The format that the extension of a checkpoint's path stands for: `json`
/// or `csv`, in lower case.
pub open spec fn format_of_path(path: Seq<u8>) -> Option<ExportFormat> {
    match extension(path) {
        Some(ext) => if ext == encode_utf8("json"@) {
            Some(ExportFormat::Json)
        } else if ext == encode_utf8("csv"@) {
            Some(ExportFormat::Csv)
        } else {
            None
        },
        None => None,
    }
}

/// How the checkpoint at `path` is to be read, given what the file system
/// says of the path.
pub open spec fn checkpoint_plan(exists: bool, is_file: bool, path: Seq<char>) -> Result<
    ExportFormat,
    ResumeErrorView,
> {
    if !exists {
        Err(ResumeErrorView::NotFound)
    } else if !is_file {
        Err(ResumeErrorView::NotAFile)
    } else {
        match format_of_path(encode_utf8(path)) {
            Some(format) => Ok(format),
            None => match extension(encode_utf8(path)) {
                Some(ext) => Err(ResumeErrorView::InvalidExtension(decode_utf8(ext))),
                None => Err(ResumeErrorView::NoExtension),
            },
        }
    }
}

/// A result of `checkpoint_format` with the error by its view.
pub open spec fn plan_of(r: Result<ExportFormat, ResumeError>) -> Result<
    ExportFormat,
    ResumeErrorView,
> {
    match r {
        Ok(format) => Ok(format),
        Err(e) => Err(e@),
    }
}

/// The format of the checkpoint at `path`, or the reason why it cannot be
/// read.
pub fn checkpoint_format(exists: bool, is_file: bool, path: &str) -> (r: Result<
    ExportFormat,
    ResumeError,
>)
    ensures
        plan_of(r) == checkpoint_plan(exists, is_file, path@),
{
    if !exists {
        return Err(ResumeError::NotFound);
    }
    if !is_file {
        return Err(ResumeError::NotAFile);
    }
    let bytes = path.as_bytes();
    match extension_start(bytes) {
        Some(start) => if ends_in_word(bytes, start, "json") {
            Ok(ExportFormat::Json)
        } else if ends_in_word(bytes, start, "csv") {
            Ok(ExportFormat::Csv)
        } else {
            match extension_text(path) {
                Some(ext) => {
                    proof {
                        vstd::utf8::encode_utf8_decode_utf8(ext@);
                    }
                    Err(ResumeError::InvalidExtension(String::from_str(ext)))
                },
                None => Err(ResumeError::NoExtension),
            }
        },
        None => Err(ResumeError::NoExtension),
    }
}

/// How often `record` stands in `records`.
pub open spec fn occurrences(records: Seq<ExportFrameView>, record: ExportFrameView) -> nat
    decreases records.len(),
{
    if records.len() == 0 {
        0
    } else {
        occurrences(records.drop_last(), record) + if records.last() == record {
            1nat
        } else {
            0nat
        }
    }
}

/// The records that a run on `files` gathers, where a run on all files
/// gathers `full`: those of `full` that name one of `files`, in their order.
pub open spec fn records_of(full: Seq<ExportFrameView>, files: Seq<FileItem>) -> Seq<
    ExportFrameView,
> {
    full.filter(|r: ExportFrameView| file_paths(files).contains(r.file))
}

/// The final artifact of a run that resumes from `checkpoint` on the
/// indexed `files`: the records of the checkpoint, and after them the
/// records of the files that `resume_from_checkpoint` leaves to be
/// processed.
pub open spec fn resumed_artifact(
    checkpoint: Seq<ExportFrameView>,
    files: Seq<FileItem>,
    full: Seq<ExportFrameView>,
) -> Seq<ExportFrameView> {
    checkpoint + records_of(full, remaining_files(checkpoint, files))
}

/// No file has more records in `records` than its first record announces.
pub open spec fn within_totals(records: Seq<ExportFrameView>) -> bool {
    forall|file: Seq<char>| #[trigger]
        expected_total(records, file) matches Some(t) ==> seen_count(records, file) <= t
            || t == 0
}

/// Every one of `records` names one of `files`.
pub open spec fn names_only(records: Seq<ExportFrameView>, files: Seq<FileItem>) -> bool {
    forall|i: int| 0 <= i < records.len() ==> file_paths(files).contains((#[trigger] records[i]).file)
}

/// Frame by frame: the records of one file announce one total, and hold
/// no frame index twice.
pub open spec fn one_record_per_frame(records: Seq<ExportFrameView>) -> bool {
    forall|i: int, j: int|
        0 <= i < j < records.len() && (#[trigger] records[i]).file == (#[trigger] records[j]).file
            ==> records[i].total_frames == records[j].total_frames && records[i].frame_index
            != records[j].frame_index
}

/// The frame indices that the records of `file` hold.
pub open spec fn frames_seen(records: Seq<ExportFrameView>, file: Seq<char>) -> Set<int> {
    Set::new(
        |x: int|
            exists|i: int|
                0 <= i < records.len() && (#[trigger] records[i]).file == file
                    && records[i].frame_index == x,
    )
}

/// Where no frame index of `file` stands twice, `file` has as many records
/// as frame indices.
pub proof fn lemma_frames_counted(records: Seq<ExportFrameView>, file: Seq<char>)
    requires
        forall|i: int, j: int|
            0 <= i < j < records.len() && (#[trigger] records[i]).file == file
                && (#[trigger] records[j]).file == file ==> records[i].frame_index
                != records[j].frame_index,
    ensures
        frames_seen(records, file).finite(),
        frames_seen(records, file).len() == seen_count(records, file),
    decreases records.len(),
{
    if records.len() == 0 {
        assert(frames_seen(records, file) =~= Set::<int>::empty());
    } else {
        let front = records.drop_last();
        let last = records.last();
        assert forall|i: int, j: int|
            0 <= i < j < front.len() && (#[trigger] front[i]).file == file && (#[trigger] front[j]).file
                == file implies front[i].frame_index != front[j].frame_index by {
            assert(front[i] == records[i] && front[j] == records[j]);
        }
        lemma_frames_counted(front, file);
        if last.file == file {
            let x = last.frame_index as int;
            if frames_seen(front, file).contains(x) {
                let i = choose|i: int|
                    0 <= i < front.len() && (#[trigger] front[i]).file == file
                        && front[i].frame_index == x;
                assert(records[i] == front[i]);
                assert(records[records.len() - 1] == last);
                assert(false);
            }
            assert forall|y: int|
                frames_seen(records, file).contains(y) <==> frames_seen(front, file).insert(
                    x,
                ).contains(y) by {
                if frames_seen(records, file).contains(y) {
                    let i = choose|i: int|
                        0 <= i < records.len() && (#[trigger] records[i]).file == file
                            && records[i].frame_index == y;
                    if i < front.len() {
                        assert(front[i] == records[i]);
                    }
                }
                if frames_seen(front, file).contains(y) {
                    let i = choose|i: int|
                        0 <= i < front.len() && (#[trigger] front[i]).file == file
                            && front[i].frame_index == y;
                    assert(records[i] == front[i]);
                }
                if y == x {
                    assert(records[records.len() - 1].file == file);
                }
            }
            assert(frames_seen(records, file) =~= frames_seen(front, file).insert(x));
        } else {
            assert forall|y: int|
                frames_seen(records, file).contains(y) <==> frames_seen(front, file).contains(
                    y,
                ) by {
                if frames_seen(records, file).contains(y) {
                    let i = choose|i: int|
                        0 <= i < records.len() && (#[trigger] records[i]).file == file
                            && records[i].frame_index == y;
                    assert(front[i] == records[i]);
                }
                if frames_seen(front, file).contains(y) {
                    let i = choose|i: int|
                        0 <= i < front.len() && (#[trigger] front[i]).file == file
                            && front[i].frame_index == y;
                    assert(records[i] == front[i]);
                }
            }
            assert(frames_seen(records, file) =~= frames_seen(front, file));
        }
    }
}

/// The total that is expected of a file is the total of one of its records.
pub proof fn lemma_expected_total_is_announced(records: Seq<ExportFrameView>, file: Seq<char>)
    requires
        expected_total(records, file) is Some,
    ensures
        exists|i: int|
            0 <= i < records.len() && (#[trigger] records[i]).file == file && Some(
                records[i].total_frames,
            ) == expected_total(records, file),
    decreases records.len(),
{
    let front = records.drop_last();
    if expected_total(front, file) is Some {
        lemma_expected_total_is_announced(front, file);
        let i = choose|i: int|
            0 <= i < front.len() && (#[trigger] front[i]).file == file && Some(
                front[i].total_frames,
            ) == expected_total(front, file);
        assert(records[i] == front[i]);
    } else {
        assert(records[records.len() - 1].file == file);
    }
}

pub proof fn lemma_seen_count_add(
    a: Seq<ExportFrameView>,
    b: Seq<ExportFrameView>,
    file: Seq<char>,
)
    ensures
        seen_count(a + b, file) == seen_count(a, file) + seen_count(b, file),
    decreases b.len(),
{
    if b.len() == 0 {
        assert(a + b =~= a);
    } else {
        assert((a + b).drop_last() =~= a + b.drop_last());
        lemma_seen_count_add(a, b.drop_last(), file);
    }
}

pub proof fn lemma_occurrences_add(
    a: Seq<ExportFrameView>,
    b: Seq<ExportFrameView>,
    record: ExportFrameView,
)
    ensures
        occurrences(a + b, record) == occurrences(a, record) + occurrences(b, record),
    decreases b.len(),
{
    if b.len() == 0 {
        assert(a + b =~= a);
    } else {
        assert((a + b).drop_last() =~= a + b.drop_last());
        lemma_occurrences_add(a, b.drop_last(), record);
    }
}

/// The expected total of a file is set by its first record: records that
/// follow do not change it.
pub proof fn lemma_expected_total_stays(
    a: Seq<ExportFrameView>,
    b: Seq<ExportFrameView>,
    file: Seq<char>,
)
    requires
        expected_total(a, file) is Some,
    ensures
        expected_total(a + b, file) == expected_total(a, file),
    decreases b.len(),
{
    if b.len() == 0 {
        assert(a + b =~= a);
    } else {
        assert((a + b).drop_last() =~= a + b.drop_last());
        lemma_expected_total_stays(a, b.drop_last(), file);
    }
}

/// A record stands in `records` no more often than its file is named, and
/// where it stands at all, it stands at some place.
pub proof fn lemma_occurrences_among_seen(records: Seq<ExportFrameView>, record: ExportFrameView)
    ensures
        occurrences(records, record) <= seen_count(records, record.file),
        occurrences(records, record) > 0 ==> exists|i: int|
            0 <= i < records.len() && #[trigger] records[i] == record,
    decreases records.len(),
{
    if records.len() > 0 {
        let front = records.drop_last();
        lemma_occurrences_among_seen(front, record);
        if records.last() == record {
            assert(records[records.len() - 1] == record);
        } else if occurrences(front, record) > 0 {
            let i = choose|i: int| 0 <= i < front.len() && #[trigger] front[i] == record;
            assert(records[i] == record);
        }
    }
}

/// A filter keeps every occurrence of a record that it lets pass.
pub proof fn lemma_filter_keeps(
    records: Seq<ExportFrameView>,
    pred: spec_fn(ExportFrameView) -> bool,
    record: ExportFrameView,
)
    requires
        pred(record),
    ensures
        occurrences(records.filter(pred), record) == occurrences(records, record),
    decreases records.len(),
{
    reveal(Seq::filter);
    if records.len() > 0 {
        lemma_filter_keeps(records.drop_last(), pred, record);
        let sub = records.drop_last().filter(pred);
        if pred(records.last()) {
            assert(sub.push(records.last()).drop_last() =~= sub);
        }
    }
}

/// A file that is not complete in the checkpoint is among those that are
/// left to be processed.
pub proof fn lemma_incomplete_remains(
    records: Seq<ExportFrameView>,
    files: Seq<FileItem>,
    path: Seq<char>,
)
    requires
        file_paths(files).contains(path),
        !is_complete(records, path),
    ensures
        file_paths(remaining_files(records, files)).contains(path),
    decreases files.len(),
{
    reveal(Seq::filter);
    let keep = |f: FileItem| !is_complete(records, f@.file_path);
    let k = choose|k: int| 0 <= k < file_paths(files).len() && file_paths(files)[k] == path;
    let front = files.drop_last();
    let kept = front.filter(keep);
    if k == files.len() - 1 {
        let all = kept.push(files.last());
        assert(remaining_files(records, files) == all);
        assert(file_paths(all)[kept.len() as int] == path);
    } else {
        assert(file_paths(front)[k] == path);
        lemma_incomplete_remains(records, front, path);
        let j = choose|j: int| 0 <= j < file_paths(kept).len() && file_paths(kept)[j] == path;
        let now = remaining_files(records, files);
        assert(now[j] == kept[j]);
        assert(file_paths(now)[j] == path);
    }
}

/// Resuming loses nothing. Let an uninterrupted run on the indexed `files`
/// gather the records `full`, no file with more records than it announces,
/// and let the run be cut off with the first `k` of them in its checkpoint.
/// The run that resumes from that checkpoint processes the files that
/// `resume_from_checkpoint` leaves, and is given the same records for them
/// again. Its artifact then holds every record at least as often as `full`
/// does; records are doubled only for files that were partial in the
/// checkpoint.
pub proof fn lemma_resume_at_least_once(
    full: Seq<ExportFrameView>,
    files: Seq<FileItem>,
    k: int,
    record: ExportFrameView,
)
    requires
        0 <= k <= full.len(),
        within_totals(full),
        names_only(full, files),
    ensures
        occurrences(full, record) <= occurrences(
            resumed_artifact(full.take(k), files, full),
            record,
        ),
        is_complete(full.take(k), record.file) ==> occurrences(full, record) == occurrences(
            resumed_artifact(full.take(k), files, full),
            record,
        ),
{
    let checkpoint = full.take(k);
    let rest = full.skip(k);
    let file = record.file;
    let left = remaining_files(checkpoint, files);
    let pred = |r: ExportFrameView| file_paths(left).contains(r.file);
    assert(full =~= checkpoint + rest);
    lemma_occurrences_add(checkpoint, rest, record);
    lemma_occurrences_add(checkpoint, records_of(full, left), record);
    lemma_occurrences_among_seen(full, record);
    if is_complete(checkpoint, file) {
        let t = expected_total(checkpoint, file)->0;
        lemma_expected_total_stays(checkpoint, rest, file);
        assert(expected_total(full, file) == Some(t));
        lemma_seen_count_add(checkpoint, rest, file);
        lemma_seen_count_bounded(rest, file);
        lemma_total_where_seen(checkpoint, file);
        lemma_occurrences_among_seen(rest, record);
        lemma_complete_is_left_out(checkpoint, files, file);
        lemma_filter_drops(full, pred, record);
    } else if occurrences(full, record) > 0 {
        let i = choose|i: int| 0 <= i < full.len() && #[trigger] full[i] == record;
        assert(file_paths(files).contains(full[i].file));
        lemma_incomplete_remains(checkpoint, files, file);
        assert(pred(record));
        lemma_filter_keeps(full, pred, record);
    }
}

/// A file that is complete in the checkpoint is not among those that are
/// left to be processed.
pub proof fn lemma_complete_is_left_out(
    records: Seq<ExportFrameView>,
    files: Seq<FileItem>,
    path: Seq<char>,
)
    requires
        is_complete(records, path),
    ensures
        !file_paths(remaining_files(records, files)).contains(path),
    decreases files.len(),
{
    reveal(Seq::filter);
    let keep = |f: FileItem| !is_complete(records, f@.file_path);
    if files.len() > 0 {
        let front = files.drop_last();
        let kept = front.filter(keep);
        lemma_complete_is_left_out(records, front, path);
        let now = remaining_files(records, files);
        if file_paths(now).contains(path) {
            let j = choose|j: int| 0 <= j < file_paths(now).len() && file_paths(now)[j] == path;
            if j < kept.len() {
                assert(now[j] == kept[j]);
                assert(file_paths(kept)[j] == path);
            } else {
                assert(now[j] == files.last());
            }
        }
    } else {
        let now = remaining_files(records, files);
        assert(now.len() == 0);
    }
}

/// A filter holds no occurrence of a record that it does not let pass.
pub proof fn lemma_filter_drops(
    records: Seq<ExportFrameView>,
    pred: spec_fn(ExportFrameView) -> bool,
    record: ExportFrameView,
)
    requires
        !pred(record),
    ensures
        occurrences(records.filter(pred), record) == 0,
    decreases records.len(),
{
    reveal(Seq::filter);
    if records.len() > 0 {
        lemma_filter_drops(records.drop_last(), pred, record);
        let sub = records.drop_last().filter(pred);
        if pred(records.last()) {
            assert(sub.push(records.last()).drop_last() =~= sub);
        }
    }
}

/// How often a record stands in a sequence is its count in the multiset of
/// the sequence.
pub proof fn lemma_occurrences_count(records: Seq<ExportFrameView>, record: ExportFrameView)
    ensures
        records.to_multiset().count(record) == occurrences(records, record),
    decreases records.len(),
{
    broadcast use vstd::multiset::group_multiset_axioms;

    if records.len() == 0 {
        records.to_multiset_ensures();
        assert(records.to_multiset().len() == 0);
    } else {
        let front = records.drop_last();
        lemma_occurrences_count(front, record);
        vstd::seq_lib::to_multiset_build(front, records.last());
        assert(front.push(records.last()) =~= records);
    }
}

/// The same of multisets: the records of the uninterrupted run are a
/// sub-multiset of the records of the resumed one.
pub proof fn lemma_resume_superset(full: Seq<ExportFrameView>, files: Seq<FileItem>, k: int)
    requires
        0 <= k <= full.len(),
        within_totals(full),
        names_only(full, files),
    ensures
        full.to_multiset().subset_of(resumed_artifact(full.take(k), files, full).to_multiset()),
{
    let resumed = resumed_artifact(full.take(k), files, full);
    assert forall|record: ExportFrameView|
        full.to_multiset().count(record) <= resumed.to_multiset().count(record) by {
        lemma_occurrences_count(full, record);
        lemma_occurrences_count(resumed, record);
        lemma_resume_at_least_once(full, files, k, record);
    }
}

/// Resuming a run loses nothing. Let the bridge take the frames and
/// errors of the indexed `files`, every frame once and of no file more
/// frames than the file announces, under ids that are unused when they
/// are taken, and let the run be cut off when `k` of its records are in
/// the checkpoint. The artifact of the run that resumes
/// from that checkpoint holds every record of the whole run at least
/// once.
pub proof fn lemma_run_resumes(events: Seq<BridgeEvent>, files: Seq<FileItem>, k: int)
    requires
        sends_unused(events),
        frames_sent_once(events),
        totals_cover(events),
        names_among(events, file_paths(files)),
        0 <= k <= exported(events).len(),
    ensures
        exported(events).to_multiset().subset_of(
            resumed_artifact(exported(events).take(k), files, exported(events)).to_multiset(),
        ),
{
    let full = exported(events);
    lemma_run_within_totals(events);
    lemma_run_names(events, file_paths(files));
    lemma_resume_superset(full, files, k);
}

/// The same of a run that is given the items of its files: where the
/// bridge takes the items that the frame producer made of the indexed
/// `files`, no item twice, the artifact of the run that resumes from a
/// checkpoint of the first `k` records holds every record of the whole run
/// at least once.
pub proof fn lemma_fed_run_resumes(
    events: Seq<BridgeEvent>,
    made: spec_fn(Seq<char>) -> Seq<WebpItemView>,
    slot: spec_fn(int) -> int,
    files: Seq<FileItem>,
    k: int,
)
    requires
        sends_unused(events),
        gives_items(events, made, slot),
        names_among(events, file_paths(files)),
        0 <= k <= exported(events).len(),
    ensures
        exported(events).to_multiset().subset_of(
            resumed_artifact(exported(events).take(k), files, exported(events)).to_multiset(),
        ),
{
    lemma_items_sent_once(events, made, slot);
    lemma_run_resumes(events, files, k);
}

} // verus!
