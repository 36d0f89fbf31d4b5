//! Laws of a whole run: what the exporter has got when the bridge has taken
//! a sequence of events, said of the records all together.

use crate::bridge::{
    exported_at, failure_of, kept_of, lemma_pending_was_sent, lemma_request_stays_pending,
    merged, pending_after, sends_unused, sent_at, BridgeEvent, PendingFrameView, ResponseBbox,
};
use crate::media::{file_items, WebpItemView};
use crate::record::ExportFrameView;
use crate::resume::{
    expected_total, frames_seen, lemma_expected_total_is_announced, lemma_frames_counted,
    one_record_per_frame, seen_count, within_totals,
};
use vstd::prelude::*;

verus! {

/// An answered frame gives the record of that frame: its file, index,
/// total, shoot time and key-frame mark, with as many detections as the
/// reply holds, with the reply's label, and with no error.
pub proof fn lemma_merged_keeps_frame(
    pending: PendingFrameView,
    boxes: Seq<ResponseBbox>,
    label: Seq<char>,
)
    ensures
        ({
            let record = merged(pending, boxes, label);
            &&& record.file == pending.file
            &&& record.frame_index == pending.frame_index
            &&& record.total_frames == pending.total_frames
            &&& record.shoot_time == pending.shoot_time
            &&& record.iframe == pending.iframe
            &&& record.bboxes is Some
            &&& record.bboxes->0.len() == boxes.len()
            &&& record.label == Some(label)
            &&& record.is_detected()
            &&& record.well_formed()
        }),
{
}

/// The records that `events` hand to the exporter, in the order in which
/// they are handed over.
pub open spec fn exported(events: Seq<BridgeEvent>) -> Seq<ExportFrameView>
    decreases events.len(),
{
    if events.len() == 0 {
        Seq::empty()
    } else {
        let before = exported(events.drop_last());
        match exported_at(events, events.len() - 1) {
            Some(record) => before.push(record),
            None => before,
        }
    }
}

/// How many of `events` are requests.
pub open spec fn requests_in(events: Seq<BridgeEvent>) -> nat
    decreases events.len(),
{
    if events.len() == 0 {
        0
    } else {
        requests_in(events.drop_last()) + if events.last() is Sent {
            1nat
        } else {
            0nat
        }
    }
}

/// How many of `events` are per-file errors.
pub open spec fn failures_in(events: Seq<BridgeEvent>) -> nat
    decreases events.len(),
{
    if events.len() == 0 {
        0
    } else {
        failures_in(events.drop_last()) + if events.last() is Failed {
            1nat
        } else {
            0nat
        }
    }
}

/// How many of `events` are replies to a request that was pending when
/// they came.
pub open spec fn answers_in(events: Seq<BridgeEvent>) -> nat
    decreases events.len(),
{
    if events.len() == 0 {
        0
    } else {
        answers_in(events.drop_last()) + if events.last() is Reply && pending_after(
            events.drop_last(),
        ).contains_key(events.last()->Reply_uuid) {
            1nat
        } else {
            0nat
        }
    }
}

/// How many of `records` hold detections.
pub open spec fn detections_in(records: Seq<ExportFrameView>) -> nat
    decreases records.len(),
{
    if records.len() == 0 {
        0
    } else {
        detections_in(records.drop_last()) + if records.last().is_detected() {
            1nat
        } else {
            0nat
        }
    }
}

/// The records of a whole run, counted. What the exporter gets is one
/// record with detections for every reply that found its request, and one
/// record with an error for every per-file error: nothing else. A request
/// is either answered or still pending, so that one which is pending when
/// the stream ends has left no record.
pub proof fn lemma_run_records(events: Seq<BridgeEvent>)
    requires
        sends_unused(events),
    ensures
        pending_after(events).dom().finite(),
        requests_in(events) == answers_in(events) + pending_after(events).len(),
        exported(events).len() == answers_in(events) + failures_in(events),
        detections_in(exported(events)) == answers_in(events),
    decreases events.len(),
{
    if events.len() > 0 {
        let front = events.drop_last();
        assert forall|j: int| 0 <= j < front.len() && (#[trigger] front[j]) is Sent implies
            !pending_after(front.take(j)).contains_key(front[j]->Sent_uuid) by {
            assert(front.take(j) =~= events.take(j));
            assert(front[j] == events[j]);
        }
        lemma_run_records(front);
        assert(events.take(events.len() - 1) =~= front);
        let before = exported(front);
        match events.last() {
            BridgeEvent::Sent { uuid, frame } => {
                assert(!pending_after(front).contains_key(uuid));
            },
            BridgeEvent::Failed { file, error } => {
                assert(exported(events).drop_last() =~= before);
            },
            BridgeEvent::Reply { uuid, boxes, label } => {
                if pending_after(front).contains_key(uuid) {
                    assert(exported(events).drop_last() =~= before);
                }
            },
        }
    }
}

/// A run in which every request was answered has handed to the exporter
/// one record for every request and one for every per-file error.
pub proof fn lemma_answered_run_records(events: Seq<BridgeEvent>)
    requires
        sends_unused(events),
        pending_after(events) == Map::<Seq<char>, PendingFrameView>::empty(),
    ensures
        exported(events).len() == requests_in(events) + failures_in(events),
        detections_in(exported(events)) == requests_in(events),
{
    lemma_run_records(events);
}

/// What the frame producer sees to, said of the events of a run: the
/// frames of one file announce one total and differ in their frame
/// indices; and a file that gave an error gave no frame and no other
/// error.
pub open spec fn frames_sent_once(events: Seq<BridgeEvent>) -> bool {
    &&& forall|j: int, k: int|
        0 <= j < k < events.len() && (#[trigger] events[j]) is Sent && (#[trigger] events[k]) is Sent
            && events[j]->frame.file == events[k]->frame.file ==> events[j]->frame.total_frames
            == events[k]->frame.total_frames && events[j]->frame.frame_index
            != events[k]->frame.frame_index
    &&& forall|j: int, k: int|
        0 <= j < events.len() && 0 <= k < events.len() && (#[trigger] events[j]) is Failed
            && (#[trigger] events[k]) is Sent ==> events[j]->file != events[k]->frame.file
    &&& forall|j: int, k: int|
        0 <= j < k < events.len() && (#[trigger] events[j]) is Failed && (#[trigger] events[k]) is Failed
            ==> events[j]->file != events[k]->file
}

/// The frame indices of `file` that `events` sent.
pub open spec fn frames_sent(events: Seq<BridgeEvent>, file: Seq<char>) -> Set<int> {
    Set::new(
        |x: int|
            exists|j: int|
                0 <= j < events.len() && (#[trigger] events[j]) is Sent && events[j]->frame.file
                    == file && events[j]->frame.frame_index == x,
    )
}

/// No file has more frames sent than its frames announce.
pub open spec fn totals_cover(events: Seq<BridgeEvent>) -> bool {
    forall|j: int|
        0 <= j < events.len() && (#[trigger] events[j]) is Sent ==> frames_sent(
            events,
            events[j]->frame.file,
        ).len() <= events[j]->frame.total_frames
}

/// Only so many frames are sent as there are events.
pub proof fn lemma_frames_sent_finite(events: Seq<BridgeEvent>, file: Seq<char>)
    ensures
        frames_sent(events, file).finite(),
    decreases events.len(),
{
    if events.len() == 0 {
        assert(frames_sent(events, file) =~= Set::<int>::empty());
    } else {
        let front = events.drop_last();
        let last = events.last();
        lemma_frames_sent_finite(front, file);
        let more = if last is Sent && last->frame.file == file {
            frames_sent(front, file).insert(last->frame.frame_index as int)
        } else {
            frames_sent(front, file)
        };
        assert forall|x: int| frames_sent(events, file).contains(x) implies more.contains(x) by {
            let j = choose|j: int|
                0 <= j < events.len() && (#[trigger] events[j]) is Sent && events[j]->frame.file
                    == file && events[j]->frame.frame_index == x;
            if j < front.len() {
                assert(front[j] == events[j]);
                assert(front[j] is Sent);
            }
        }
        vstd::set_lib::lemma_len_subset(frames_sent(events, file), more);
    }
}

/// The file that `event` is about, where it is no reply.
pub open spec fn file_of(event: BridgeEvent) -> Option<Seq<char>> {
    match event {
        BridgeEvent::Sent { frame, .. } => Some(frame.file),
        BridgeEvent::Failed { file, .. } => Some(file),
        BridgeEvent::Reply { .. } => None,
    }
}

/// Event by event, the bridge is given the items of files, and no item
/// twice: `made(path)` are the items of the file at `path`, and event `j`,
/// where it is no reply, stands for item `slot(j)` of its file.
pub open spec fn gives_items(
    events: Seq<BridgeEvent>,
    made: spec_fn(Seq<char>) -> Seq<WebpItemView>,
    slot: spec_fn(int) -> int,
) -> bool {
    &&& forall|j: int|
        0 <= j < events.len() ==> match #[trigger] events[j] {
            BridgeEvent::Sent { frame, .. } => {
                let items = made(frame.file);
                &&& file_items(items, frame.file)
                &&& 0 <= slot(j) < items.len()
                &&& items[slot(j)] is Frame
                &&& kept_of(items[slot(j)]->Frame_0) == frame
            },
            BridgeEvent::Failed { file, error } => {
                let items = made(file);
                &&& file_items(items, file)
                &&& slot(j) == 0
                &&& items.len() > 0
                &&& items[0] is ErrFile
                &&& items[0]->ErrFile_0.error == error
            },
            BridgeEvent::Reply { .. } => true,
        }
    &&& forall|j: int, k: int|
        0 <= j < k < events.len() && file_of(#[trigger] events[j]) is Some && file_of(events[j])
            == file_of(#[trigger] events[k]) ==> slot(j) != slot(k)
}

/// The frame indices that `items` hold.
spec fn indices_of(items: Seq<WebpItemView>) -> Set<int> {
    Set::new(
        |x: int|
            exists|m: int|
                0 <= m < items.len() && (#[trigger] items[m])->Frame_0.frame_index == x,
    )
}

/// Items hold no more frame indices than there are items.
proof fn lemma_indices_bounded(items: Seq<WebpItemView>)
    ensures
        indices_of(items).finite(),
        indices_of(items).len() <= items.len(),
    decreases items.len(),
{
    if items.len() == 0 {
        assert(indices_of(items) =~= Set::<int>::empty());
    } else {
        let front = items.drop_last();
        lemma_indices_bounded(front);
        let more = indices_of(front).insert(items.last()->Frame_0.frame_index as int);
        assert forall|x: int| indices_of(items).contains(x) implies more.contains(x) by {
            let m = choose|m: int|
                0 <= m < items.len() && (#[trigger] items[m])->Frame_0.frame_index == x;
            if m < front.len() {
                assert(front[m] == items[m]);
            }
        }
        vstd::set_lib::lemma_len_subset(indices_of(items), more);
    }
}

/// Where the bridge is given the items of files, and no item twice, the
/// frames are sent once, and of no file more than the file announces.
pub proof fn lemma_items_sent_once(
    events: Seq<BridgeEvent>,
    made: spec_fn(Seq<char>) -> Seq<WebpItemView>,
    slot: spec_fn(int) -> int,
)
    requires
        gives_items(events, made, slot),
    ensures
        frames_sent_once(events),
        totals_cover(events),
{
    assert forall|j: int, k: int|
        0 <= j < k < events.len() && (#[trigger] events[j]) is Sent && (#[trigger] events[k]) is Sent
            && events[j]->frame.file == events[k]->frame.file implies events[j]->frame.total_frames
        == events[k]->frame.total_frames && events[j]->frame.frame_index
        != events[k]->frame.frame_index by {
        let items = made(events[j]->frame.file);
        assert(file_of(events[j]) == file_of(events[k]));
        assert(items[slot(j)] is Frame && items[slot(k)] is Frame);
        if slot(j) < slot(k) {
            assert(items[slot(j)]->Frame_0.frame_index != items[slot(k)]->Frame_0.frame_index);
        } else {
            assert(items[slot(k)]->Frame_0.frame_index != items[slot(j)]->Frame_0.frame_index);
        }
    }
    assert forall|j: int, k: int|
        0 <= j < events.len() && 0 <= k < events.len() && (#[trigger] events[j]) is Failed
            && (#[trigger] events[k]) is Sent implies events[j]->file
        != events[k]->frame.file by {
        if events[j]->file == events[k]->frame.file {
            let items = made(events[j]->file);
            assert(items[0] is ErrFile);
            assert(items[slot(k)] is Frame);
        }
    }
    assert forall|j: int, k: int|
        0 <= j < k < events.len() && (#[trigger] events[j]) is Failed && (#[trigger] events[k]) is Failed
            implies events[j]->file != events[k]->file by {
        if events[j]->file == events[k]->file {
            assert(file_of(events[j]) == file_of(events[k]));
            assert(slot(j) != slot(k));
        }
    }
    assert forall|j: int| 0 <= j < events.len() && (#[trigger] events[j]) is Sent implies frames_sent(
        events,
        events[j]->frame.file,
    ).len() <= events[j]->frame.total_frames by {
        let file = events[j]->frame.file;
        let items = made(file);
        assert(items[slot(j)] is Frame);
        lemma_indices_bounded(items);
        assert forall|x: int| frames_sent(events, file).contains(x) implies indices_of(
            items,
        ).contains(x) by {
            let k = choose|k: int|
                0 <= k < events.len() && (#[trigger] events[k]) is Sent && events[k]->frame.file
                    == file && events[k]->frame.frame_index == x;
            assert(items[slot(k)]->Frame_0.frame_index == x);
        }
        vstd::set_lib::lemma_len_subset(frames_sent(events, file), indices_of(items));
    }
}

/// Event `j` of `events` sent frame `frame_index` of `total` of `file`.
spec fn sent_frame_at(
    events: Seq<BridgeEvent>,
    j: int,
    file: Seq<char>,
    frame_index: usize,
    total: usize,
) -> bool {
    &&& 0 <= j < events.len()
    &&& events[j] is Sent
    &&& events[j]->frame.file == file
    &&& events[j]->frame.frame_index == frame_index
    &&& events[j]->frame.total_frames == total
}

/// Event `j` of `events` is an error of `file`.
spec fn failed_at(events: Seq<BridgeEvent>, j: int, file: Seq<char>) -> bool {
    0 <= j < events.len() && events[j] is Failed && events[j]->file == file
}

/// `record` is accounted for by `events`: one with detections by a frame
/// that was sent, one with an error by an error of its file.
spec fn accounted(events: Seq<BridgeEvent>, record: ExportFrameView) -> bool {
    if record.is_detected() {
        exists|j: int| #[trigger]
            sent_frame_at(events, j, record.file, record.frame_index, record.total_frames)
    } else {
        record.total_frames == 0 && exists|j: int| #[trigger] failed_at(events, j, record.file)
    }
}

/// `frame` is accounted for by `events`: it was sent.
spec fn pending_accounted(events: Seq<BridgeEvent>, frame: PendingFrameView) -> bool {
    exists|j: int| #[trigger]
        sent_frame_at(events, j, frame.file, frame.frame_index, frame.total_frames)
}

/// What holds of the records and the pending frames of a run whose frames
/// are sent once.
spec fn run_in_order(events: Seq<BridgeEvent>) -> bool {
    let out = exported(events);
    let pending = pending_after(events);
    &&& forall|i: int| 0 <= i < out.len() ==> accounted(events, #[trigger] out[i])
    &&& forall|u: Seq<char>| #[trigger]
        pending.contains_key(u) ==> pending_accounted(events, pending[u])
    &&& forall|u: Seq<char>, i: int|
        #![trigger pending.contains_key(u), out[i]]
        pending.contains_key(u) && 0 <= i < out.len() && out[i].is_detected() ==> !(
        pending[u].file == out[i].file && pending[u].frame_index == out[i].frame_index)
    &&& forall|u: Seq<char>, v: Seq<char>|
        #![trigger pending.contains_key(u), pending.contains_key(v)]
        pending.contains_key(u) && pending.contains_key(v) && u != v ==> !(pending[u].file
            == pending[v].file && pending[u].frame_index == pending[v].frame_index)
    &&& one_record_per_frame(out)
}

/// What is accounted for stays so when an event follows.
proof fn lemma_accounted_stays(events: Seq<BridgeEvent>, record: ExportFrameView)
    requires
        events.len() > 0,
        accounted(events.drop_last(), record),
    ensures
        accounted(events, record),
{
    let front = events.drop_last();
    if record.is_detected() {
        let j = choose|j: int| #[trigger]
            sent_frame_at(front, j, record.file, record.frame_index, record.total_frames);
        assert(front[j] == events[j]);
        assert(sent_frame_at(events, j, record.file, record.frame_index, record.total_frames));
    } else {
        let j = choose|j: int| #[trigger] failed_at(front, j, record.file);
        assert(front[j] == events[j]);
        assert(failed_at(events, j, record.file));
    }
}

/// A frame that was sent stays so when an event follows.
proof fn lemma_pending_accounted_stays(events: Seq<BridgeEvent>, frame: PendingFrameView)
    requires
        events.len() > 0,
        pending_accounted(events.drop_last(), frame),
    ensures
        pending_accounted(events, frame),
{
    let front = events.drop_last();
    let j = choose|j: int| #[trigger]
        sent_frame_at(front, j, frame.file, frame.frame_index, frame.total_frames);
    assert(front[j] == events[j]);
    assert(sent_frame_at(events, j, frame.file, frame.frame_index, frame.total_frames));
}

/// Two records of one file that are accounted for are of one kind, and
/// announce one total.
proof fn lemma_accounted_pair(events: Seq<BridgeEvent>, a: ExportFrameView, b: ExportFrameView)
    requires
        frames_sent_once(events),
        accounted(events, a),
        accounted(events, b),
        a.well_formed(),
        b.well_formed(),
        a.file == b.file,
    ensures
        a.is_detected() == b.is_detected(),
        a.total_frames == b.total_frames,
{
    if a.is_detected() {
        let j = choose|j: int| #[trigger]
            sent_frame_at(events, j, a.file, a.frame_index, a.total_frames);
        if b.is_detected() {
            let k = choose|k: int| #[trigger]
                sent_frame_at(events, k, b.file, b.frame_index, b.total_frames);
            if j < k {
                assert(events[j] is Sent && events[k] is Sent);
            } else if k < j {
                assert(events[k] is Sent && events[j] is Sent);
            }
        } else {
            let k = choose|k: int| #[trigger] failed_at(events, k, b.file);
            assert(events[k] is Failed && events[j] is Sent);
        }
    } else {
        let j = choose|j: int| #[trigger] failed_at(events, j, a.file);
        if b.is_detected() {
            let k = choose|k: int| #[trigger]
                sent_frame_at(events, k, b.file, b.frame_index, b.total_frames);
            assert(events[j] is Failed && events[k] is Sent);
        }
    }
}

/// A run whose frames are sent once, under ids that are unused when they
/// are taken, is in order after every event.
proof fn lemma_run_in_order(events: Seq<BridgeEvent>)
    requires
        sends_unused(events),
        frames_sent_once(events),
    ensures
        run_in_order(events),
    decreases events.len(),
{
    if events.len() > 0 {
        let front = events.drop_last();
        let n = events.len() - 1;
        assert forall|j: int| 0 <= j < front.len() implies #[trigger] front[j] == events[j] by {}
        assert forall|j: int| 0 <= j < front.len() && (#[trigger] front[j]) is Sent implies
            !pending_after(front.take(j)).contains_key(front[j]->Sent_uuid) by {
            assert(front.take(j) =~= events.take(j));
            assert(front[j] == events[j]);
        }
        assert(frames_sent_once(front)) by {
            assert forall|j: int, k: int|
                0 <= j < k < front.len() && (#[trigger] front[j]) is Sent && (#[trigger] front[k]) is Sent
                    && front[j]->frame.file == front[k]->frame.file implies front[j]->frame.total_frames
                    == front[k]->frame.total_frames && front[j]->frame.frame_index
                    != front[k]->frame.frame_index by {
                assert(events[j] is Sent && events[k] is Sent);
            }
            assert forall|j: int, k: int|
                0 <= j < front.len() && 0 <= k < front.len() && (#[trigger] front[j]) is Failed
                    && (#[trigger] front[k]) is Sent implies front[j]->file
                    != front[k]->frame.file by {
                assert(events[j] is Failed && events[k] is Sent);
            }
            assert forall|j: int, k: int|
                0 <= j < k < front.len() && (#[trigger] front[j]) is Failed && (#[trigger] front[k]) is Failed
                    implies front[j]->file != front[k]->file by {
                assert(events[j] is Failed && events[k] is Failed);
            }
        }
        lemma_run_in_order(front);
        assert(events.take(n) =~= front);
        let out0 = exported(front);
        let out = exported(events);
        let pending0 = pending_after(front);
        let pending = pending_after(events);
        assert forall|i: int| 0 <= i < out0.len() implies accounted(events, #[trigger] out0[i]) by {
            lemma_accounted_stays(events, out0[i]);
        }
        assert forall|u: Seq<char>| #[trigger] pending0.contains_key(u) implies pending_accounted(
            events,
            pending0[u],
        ) by {
            lemma_pending_accounted_stays(events, pending0[u]);
        }
        match events.last() {
            BridgeEvent::Sent { uuid, frame } => {
                assert(events[n] is Sent);
                assert(!pending0.contains_key(uuid));
                assert(out == out0);
                assert(sent_frame_at(events, n, frame.file, frame.frame_index, frame.total_frames));
                // the new frame is none that was sent before
                assert forall|j: int|
                    0 <= j < n && events[j] is Sent && events[j]->frame.file
                        == frame.file implies events[j]->frame.frame_index
                    != frame.frame_index by {
                    assert(events[j] is Sent && events[n] is Sent);
                }
                assert forall|u: Seq<char>, i: int|
                    #![trigger pending.contains_key(u), out[i]]
                    pending.contains_key(u) && 0 <= i < out.len() && out[i].is_detected()
                        implies !(pending[u].file == out[i].file && pending[u].frame_index
                        == out[i].frame_index) by {
                    if u == uuid {
                        let j = choose|j: int| #[trigger]
                            sent_frame_at(
                                front,
                                j,
                                out0[i].file,
                                out0[i].frame_index,
                                out0[i].total_frames,
                            );
                        assert(accounted(front, out0[i]));
                        assert(events[j] == front[j]);
                    } else {
                        assert(pending0.contains_key(u));
                    }
                }
                assert forall|u: Seq<char>, v: Seq<char>|
                    #![trigger pending.contains_key(u), pending.contains_key(v)]
                    pending.contains_key(u) && pending.contains_key(v) && u != v implies !(
                    pending[u].file == pending[v].file && pending[u].frame_index
                        == pending[v].frame_index) by {
                    if u == uuid {
                        assert(pending0.contains_key(v));
                        assert(pending_accounted(front, pending0[v]));
                        let j = choose|j: int| #[trigger]
                            sent_frame_at(
                                front,
                                j,
                                pending0[v].file,
                                pending0[v].frame_index,
                                pending0[v].total_frames,
                            );
                        assert(events[j] == front[j]);
                    } else if v == uuid {
                        assert(pending0.contains_key(u));
                        assert(pending_accounted(front, pending0[u]));
                        let j = choose|j: int| #[trigger]
                            sent_frame_at(
                                front,
                                j,
                                pending0[u].file,
                                pending0[u].frame_index,
                                pending0[u].total_frames,
                            );
                        assert(events[j] == front[j]);
                    } else {
                        assert(pending0.contains_key(u) && pending0.contains_key(v));
                    }
                }
                assert forall|u: Seq<char>| #[trigger] pending.contains_key(u) implies pending_accounted(
                    events,
                    pending[u],
                ) by {
                    if u != uuid {
                        assert(pending0.contains_key(u));
                    }
                }
            },
            BridgeEvent::Failed { file, error } => {
                assert(events[n] is Failed);
                let record = failure_of(file, error);
                assert(out =~= out0.push(record));
                assert(pending == pending0);
                assert(!record.is_detected() && record.total_frames == 0 && record.file == file);
                assert(failed_at(events, n, record.file));
                assert(accounted(events, record));
                assert forall|i: int| 0 <= i < out.len() implies accounted(events, #[trigger] out[i]) by {
                    if i < out0.len() {
                        assert(out[i] == out0[i]);
                    }
                }
                assert forall|i: int| 0 <= i < out0.len() implies (#[trigger] out0[i]).file != file by {
                    if out0[i].file == file {
                        assert(accounted(front, out0[i]));
                        if out0[i].is_detected() {
                            let j = choose|j: int| #[trigger]
                                sent_frame_at(
                                    front,
                                    j,
                                    out0[i].file,
                                    out0[i].frame_index,
                                    out0[i].total_frames,
                                );
                            assert(events[j] == front[j]);
                            assert(events[n] is Failed && events[j] is Sent);
                        } else {
                            let j = choose|j: int| #[trigger] failed_at(front, j, out0[i].file);
                            assert(events[j] == front[j]);
                            assert(events[j] is Failed && events[n] is Failed);
                        }
                    }
                }
                assert forall|u: Seq<char>, i: int|
                    #![trigger pending.contains_key(u), out[i]]
                    pending.contains_key(u) && 0 <= i < out.len() && out[i].is_detected()
                        implies !(pending[u].file == out[i].file && pending[u].frame_index
                        == out[i].frame_index) by {
                    if i < out0.len() {
                        assert(out[i] == out0[i]);
                    }
                }
                assert(one_record_per_frame(out)) by {
                    assert forall|i: int, j: int|
                        0 <= i < j < out.len() && (#[trigger] out[i]).file == (#[trigger] out[j]).file
                            implies out[i].total_frames == out[j].total_frames
                        && out[i].frame_index != out[j].frame_index by {
                        assert(out[i] == out0[i]);
                        if j < out0.len() {
                            assert(out[j] == out0[j]);
                        }
                    }
                }
            },
            BridgeEvent::Reply { uuid, boxes, label } => {
                if pending0.contains_key(uuid) {
                    let frame = pending0[uuid];
                    let record = merged(frame, boxes, label);
                    assert(out =~= out0.push(record));
                    assert(pending == pending0.remove(uuid));
                    assert(pending_accounted(events, frame));
                    let s = choose|j: int| #[trigger]
                        sent_frame_at(events, j, frame.file, frame.frame_index, frame.total_frames);
                    assert(sent_frame_at(
                        events,
                        s,
                        record.file,
                        record.frame_index,
                        record.total_frames,
                    ));
                    assert(accounted(events, record));
                    assert forall|i: int| 0 <= i < out.len() implies accounted(
                        events,
                        #[trigger] out[i],
                    ) by {
                        if i < out0.len() {
                            assert(out[i] == out0[i]);
                        }
                    }
                    assert forall|u: Seq<char>| #[trigger] pending.contains_key(u) implies pending_accounted(
                        events,
                        pending[u],
                    ) by {
                        assert(pending0.contains_key(u));
                    }
                    assert forall|u: Seq<char>, i: int|
                        #![trigger pending.contains_key(u), out[i]]
                        pending.contains_key(u) && 0 <= i < out.len() && out[i].is_detected()
                            implies !(pending[u].file == out[i].file && pending[u].frame_index
                            == out[i].frame_index) by {
                        assert(pending0.contains_key(u));
                        if i < out0.len() {
                            assert(out[i] == out0[i]);
                        } else {
                            assert(pending0.contains_key(uuid) && u != uuid);
                        }
                    }
                    assert forall|u: Seq<char>, v: Seq<char>|
                        #![trigger pending.contains_key(u), pending.contains_key(v)]
                        pending.contains_key(u) && pending.contains_key(v) && u != v implies !(
                        pending[u].file == pending[v].file && pending[u].frame_index
                            == pending[v].frame_index) by {
                        assert(pending0.contains_key(u) && pending0.contains_key(v));
                    }
                    assert(one_record_per_frame(out)) by {
                        assert(events[s] is Sent);
                        assert forall|i: int, j: int|
                            0 <= i < j < out.len() && (#[trigger] out[i]).file == (
                            #[trigger] out[j]).file implies out[i].total_frames
                            == out[j].total_frames && out[i].frame_index
                            != out[j].frame_index by {
                            assert(out[i] == out0[i]);
                            if j < out0.len() {
                                assert(out[j] == out0[j]);
                            } else {
                                assert(out[j] == record);
                                assert(accounted(events, out0[i]));
                                lemma_exported_well_formed(front, i);
                                lemma_accounted_pair(events, out0[i], record);
                                assert(pending0.contains_key(uuid));
                            }
                        }
                    }
                } else {
                    assert(out == out0);
                    assert(pending =~= pending0);
                }
            },
        }
    }
}

/// Every record that the exporter gets holds exactly one outcome.
pub proof fn lemma_exported_well_formed(events: Seq<BridgeEvent>, i: int)
    requires
        0 <= i < exported(events).len(),
    ensures
        exported(events)[i].well_formed(),
    decreases events.len(),
{
    if events.len() > 0 {
        let front = events.drop_last();
        if i < exported(front).len() {
            lemma_exported_well_formed(front, i);
        }
    }
}

/// How many of `events` are replies.
pub open spec fn replies_in(events: Seq<BridgeEvent>) -> nat
    decreases events.len(),
{
    if events.len() == 0 {
        0
    } else {
        replies_in(events.drop_last()) + if events.last() is Reply {
            1nat
        } else {
            0nat
        }
    }
}

/// Every reply of `events` answers a request that was sent before it, and
/// no two replies answer one id.
pub open spec fn replies_once(events: Seq<BridgeEvent>) -> bool {
    &&& forall|k: int|
        0 <= k < events.len() && (#[trigger] events[k]) is Reply ==> exists|j: int|
            0 <= j < k && (#[trigger] events[j]) is Sent && events[j]->Sent_uuid
                == events[k]->Reply_uuid
    &&& forall|i: int, k: int|
        0 <= i < k < events.len() && (#[trigger] events[i]) is Reply && (#[trigger] events[k]) is Reply
            ==> events[i]->Reply_uuid != events[k]->Reply_uuid
}

/// A stream that ends early. Where every reply answers a request of its
/// own, the exporter has got, when the stream ends, one record with
/// detections for every reply and one record with an error for every
/// per-file error; the requests that were not answered are pending, and
/// have left no record.
pub proof fn lemma_stream_cut_records(events: Seq<BridgeEvent>)
    requires
        sends_unused(events),
        replies_once(events),
    ensures
        answers_in(events) == replies_in(events),
        exported(events).len() == replies_in(events) + failures_in(events),
        detections_in(exported(events)) == replies_in(events),
        requests_in(events) == replies_in(events) + pending_after(events).len(),
    decreases events.len(),
{
    lemma_run_records(events);
    if events.len() > 0 {
        let front = events.drop_last();
        let n = events.len() - 1;
        assert forall|j: int| 0 <= j < front.len() && (#[trigger] front[j]) is Sent implies
            !pending_after(front.take(j)).contains_key(front[j]->Sent_uuid) by {
            assert(front.take(j) =~= events.take(j));
            assert(front[j] == events[j]);
        }
        assert(replies_once(front)) by {
            assert forall|k: int| 0 <= k < front.len() && (#[trigger] front[k]) is Reply implies exists|
                j: int,
            |
                0 <= j < k && (#[trigger] front[j]) is Sent && front[j]->Sent_uuid
                    == front[k]->Reply_uuid by {
                assert(events[k] is Reply);
                let j = choose|j: int|
                    0 <= j < k && (#[trigger] events[j]) is Sent && events[j]->Sent_uuid
                        == events[k]->Reply_uuid;
                assert(front[j] == events[j]);
            }
            assert forall|i: int, k: int|
                0 <= i < k < front.len() && (#[trigger] front[i]) is Reply && (#[trigger] front[k]) is Reply
                    implies front[i]->Reply_uuid != front[k]->Reply_uuid by {
                assert(events[i] is Reply && events[k] is Reply);
            }
        }
        lemma_stream_cut_records(front);
        lemma_run_records(front);
        if events[n] is Reply {
            let j = choose|j: int|
                0 <= j < n && (#[trigger] events[j]) is Sent && events[j]->Sent_uuid
                    == events[n]->Reply_uuid;
            assert forall|m: int| j < m < n implies !(#[trigger] events[m] is Reply
                && events[m]->Reply_uuid == events[j]->Sent_uuid) by {
                if events[m] is Reply {
                    assert(events[m] is Reply && events[n] is Reply);
                }
            }
            lemma_request_stays_pending(events, j, n);
            assert(events.take(n) =~= front);
        }
    }
}

/// `record` came of event `k` of `events`: of an error, or of a reply to
/// the frame that event `j` sent.
pub open spec fn came_of(events: Seq<BridgeEvent>, j: int, k: int, record: ExportFrameView) -> bool {
    match events[k] {
        BridgeEvent::Failed { file, error } => record == failure_of(file, error),
        BridgeEvent::Reply { uuid, boxes, label } => events[j] is Sent && events[j]->Sent_uuid
            == uuid && record == merged(events[j]->frame, boxes, label),
        BridgeEvent::Sent { .. } => false,
    }
}

/// Where a record comes from: every record that the exporter gets is the
/// error of a file, as the bridge was given it, or it is a frame that was
/// sent, with the detections and the label of a reply.
pub proof fn lemma_record_origin(events: Seq<BridgeEvent>, i: int)
    requires
        0 <= i < exported(events).len(),
    ensures
        exists|j: int, k: int|
            0 <= j <= k < events.len() && #[trigger] came_of(events, j, k, exported(events)[i]),
    decreases events.len(),
{
    let front = events.drop_last();
    let n = events.len() - 1;
    let record = exported(events)[i];
    assert(events.take(n) =~= front);
    if i < exported(front).len() {
        lemma_record_origin(front, i);
        let (j, k) = choose|j: int, k: int|
            0 <= j <= k < front.len() && #[trigger] came_of(front, j, k, exported(front)[i]);
        assert(front[j] == events[j] && front[k] == events[k]);
        assert(came_of(events, j, k, record));
    } else {
        match events.last() {
            BridgeEvent::Sent { .. } => {},
            BridgeEvent::Failed { file, error } => {
                assert(came_of(events, n, n, record));
            },
            BridgeEvent::Reply { uuid, boxes, label } => {
                lemma_pending_was_sent(front, uuid);
                let j = choose|j: int| sent_at(front, j, uuid, pending_after(front)[uuid]);
                assert(front[j] == events[j]);
                assert(came_of(events, j, n, record));
            },
        }
    }
}

/// A folder of pictures, each answered. Where the bridge is given frames
/// of pictures only, each frame 0 of 1 and no key frame, and every request
/// is answered with `n` detections, the exporter gets one record for every
/// request, and every record is frame 0 of 1 of its picture, no key frame,
/// with `n` detections and no error.
pub proof fn lemma_pictures_answered(events: Seq<BridgeEvent>, n: nat)
    requires
        sends_unused(events),
        pending_after(events) == Map::<Seq<char>, PendingFrameView>::empty(),
        forall|j: int|
            0 <= j < events.len() ==> match #[trigger] events[j] {
                BridgeEvent::Sent { frame, .. } => frame.frame_index == 0 && frame.total_frames
                    == 1 && !frame.iframe,
                BridgeEvent::Failed { .. } => false,
                BridgeEvent::Reply { boxes, .. } => boxes.len() == n,
            },
    ensures
        exported(events).len() == requests_in(events),
        forall|i: int|
            0 <= i < exported(events).len() ==> {
                let record = #[trigger] exported(events)[i];
                &&& record.frame_index == 0
                &&& record.total_frames == 1
                &&& !record.iframe
                &&& record.bboxes is Some
                &&& record.bboxes->0.len() == n
                &&& record.error is None
            },
{
    lemma_answered_run_records(events);
    lemma_no_failures(events);
    assert forall|i: int| 0 <= i < exported(events).len() implies {
        let record = #[trigger] exported(events)[i];
        &&& record.frame_index == 0
        &&& record.total_frames == 1
        &&& !record.iframe
        &&& record.bboxes is Some
        &&& record.bboxes->0.len() == n
        &&& record.error is None
    } by {
        lemma_record_origin(events, i);
        let (j, k) = choose|j: int, k: int|
            0 <= j <= k < events.len() && #[trigger] came_of(events, j, k, exported(events)[i]);
        assert(events[k] is Reply);
        assert(events[j] is Sent);
    }
}

/// Events without an error count no error.
proof fn lemma_no_failures(events: Seq<BridgeEvent>)
    requires
        forall|j: int| 0 <= j < events.len() ==> !(#[trigger] events[j] is Failed),
    ensures
        failures_in(events) == 0,
    decreases events.len(),
{
    if events.len() > 0 {
        let front = events.drop_last();
        assert forall|j: int| 0 <= j < front.len() implies !(#[trigger] front[j] is Failed) by {
            assert(front[j] == events[j]);
        }
        lemma_no_failures(front);
        assert(!(events[events.len() - 1] is Failed));
    }
}

/// Every frame and every error of `events` is of one of the files at
/// `paths`.
pub open spec fn names_among(events: Seq<BridgeEvent>, paths: Seq<Seq<char>>) -> bool {
    forall|j: int|
        0 <= j < events.len() ==> match #[trigger] events[j] {
            BridgeEvent::Sent { frame, .. } => paths.contains(frame.file),
            BridgeEvent::Failed { file, .. } => paths.contains(file),
            BridgeEvent::Reply { .. } => true,
        }
}

/// The exporter gets records of no other files than those whose frames
/// and errors the bridge was given.
pub proof fn lemma_run_names(events: Seq<BridgeEvent>, paths: Seq<Seq<char>>)
    requires
        sends_unused(events),
        frames_sent_once(events),
        names_among(events, paths),
    ensures
        forall|i: int|
            0 <= i < exported(events).len() ==> paths.contains(
                (#[trigger] exported(events)[i]).file,
            ),
{
    lemma_run_in_order(events);
    let out = exported(events);
    assert forall|i: int| 0 <= i < out.len() implies paths.contains((#[trigger] out[i]).file) by {
        let record = out[i];
        assert(accounted(events, record));
        if record.is_detected() {
            let j = choose|j: int| #[trigger]
                sent_frame_at(events, j, record.file, record.frame_index, record.total_frames);
            assert(events[j] is Sent);
        } else {
            let j = choose|j: int| #[trigger] failed_at(events, j, record.file);
            assert(events[j] is Failed);
        }
    }
}

/// The exporter gets of no file more records than the file announces, in
/// a run whose frames are sent once, of no file more than the file
/// announces, under ids that are unused when they are taken.
pub proof fn lemma_run_within_totals(events: Seq<BridgeEvent>)
    requires
        sends_unused(events),
        frames_sent_once(events),
        totals_cover(events),
    ensures
        within_totals(exported(events)),
{
    lemma_run_in_order(events);
    let out = exported(events);
    assert forall|file: Seq<char>| #[trigger]
        expected_total(out, file) matches Some(t) ==> seen_count(out, file) <= t || t == 0 by {
        if expected_total(out, file) is Some && expected_total(out, file)->0 != 0 {
            lemma_expected_total_is_announced(out, file);
            let first = choose|i: int|
                0 <= i < out.len() && (#[trigger] out[i]).file == file && Some(
                    out[i].total_frames,
                ) == expected_total(out, file);
            let a = out[first];
            assert(accounted(events, a));
            lemma_exported_well_formed(events, first);
            let j = choose|j: int| #[trigger]
                sent_frame_at(events, j, a.file, a.frame_index, a.total_frames);
            assert(events[j] is Sent);
            lemma_frames_sent_finite(events, file);
            lemma_frames_counted(out, file);
            assert forall|x: int| frames_seen(out, file).contains(x) implies frames_sent(
                events,
                file,
            ).contains(x) by {
                let i = choose|i: int|
                    0 <= i < out.len() && (#[trigger] out[i]).file == file && out[i].frame_index
                        == x;
                let b = out[i];
                assert(accounted(events, b));
                lemma_exported_well_formed(events, i);
                lemma_accounted_pair(events, a, b);
                let k = choose|k: int| #[trigger]
                    sent_frame_at(events, k, b.file, b.frame_index, b.total_frames);
                assert(events[k] is Sent);
            }
            vstd::set_lib::lemma_len_subset(frames_seen(out, file), frames_sent(events, file));
        }
    }
}

/// Sent once, exported once: in a run whose frames are sent once, under
/// ids that are unused when they are taken, the exporter gets no frame of
/// a file twice, and the records of a file announce one total.
pub proof fn lemma_run_frame_by_frame(events: Seq<BridgeEvent>)
    requires
        sends_unused(events),
        frames_sent_once(events),
    ensures
        one_record_per_frame(exported(events)),
{
    lemma_run_in_order(events);
}

} // verus!
