//! Correlation of requests and replies. Every frame sent gets an id and an
//! entry in the pending map; a reply takes the entry with its id out again and
//! completes it. Replies may come in any order, and one without an entry is
//! dropped.

use crate::media::{ErrFile, Frame, FrameView, WebpItem};
use crate::record::{clone_text, Bbox, ExportFrame, ExportFrameView, text_of};
use vstd::hash_map::StringHashMap;
use vstd::prelude::*;
use vstd::string::StringExecFns;

verus! {

/// What is kept of a frame while its reply is awaited.
#[derive(Debug)]
pub struct PendingFrame {
    pub file: String,
    pub frame_index: usize,
    pub shoot_time: Option<String>,
    pub total_frames: usize,
    pub iframe: bool,
}

pub struct PendingFrameView {
    pub file: Seq<char>,
    pub frame_index: usize,
    pub shoot_time: Option<Seq<char>>,
    pub total_frames: usize,
    pub iframe: bool,
}

impl View for PendingFrame {
    type V = PendingFrameView;

    open spec fn view(&self) -> PendingFrameView {
        PendingFrameView {
            file: self.file@,
            frame_index: self.frame_index,
            shoot_time: text_of(self.shoot_time),
            total_frames: self.total_frames,
            iframe: self.iframe,
        }
    }
}

/// One request of the detection stream. `iou` and `score` hold the bits of
/// the two thresholds.
#[derive(Debug, PartialEq, Eq)]
pub struct DetectRequest {
    pub uuid: String,
    pub image: Vec<u8>,
    pub width: i32,
    pub height: i32,
    pub iou: u32,
    pub score: u32,
    pub iframe: bool,
}

/// One detection as the service sends it; the numbers as bits.
#[derive(Clone, Copy, Debug, PartialEq, Eq, Structural)]
pub struct ResponseBbox {
    pub x1: u32,
    pub y1: u32,
    pub x2: u32,
    pub y2: u32,
    pub class: i32,
    pub score: u32,
}

/// One reply of the detection stream.
#[derive(Debug)]
pub struct DetectResponse {
    pub uuid: String,
    pub bboxs: Vec<ResponseBbox>,
    pub label: String,
}

/// What the bridge does with an item of the frame producer.
#[derive(Debug)]
pub enum Outbound {
    /// Send this request to the service.
    Request(DetectRequest),
    /// Hand this record to the exporter.
    Export(ExportFrame),
}

/// The detection of a record that stands for `b`.
pub open spec fn bbox_of(b: ResponseBbox) -> Bbox {
    Bbox { x1: b.x1, y1: b.y1, x2: b.x2, y2: b.y2, class: b.class as usize, score: b.score }
}

/// The record that a reply with `boxes` and `label` makes of `pending`.
pub open spec fn merged(pending: PendingFrameView, boxes: Seq<ResponseBbox>, label: Seq<char>)
    -> ExportFrameView {
    ExportFrameView {
        file: pending.file,
        frame_index: pending.frame_index,
        shoot_time: pending.shoot_time,
        total_frames: pending.total_frames,
        iframe: pending.iframe,
        bboxes: Some(boxes.map_values(|b: ResponseBbox| bbox_of(b))),
        label: Some(label),
        error: None,
    }
}

pub fn convert_bbox(b: &ResponseBbox) -> (r: Bbox)
    ensures
        r == bbox_of(*b),
        b.class >= 0 ==> r.class == b.class,
{
    Bbox { x1: b.x1, y1: b.y1, x2: b.x2, y2: b.y2, class: b.class as usize, score: b.score }
}

pub fn convert_bboxes(boxes: &Vec<ResponseBbox>) -> (r: Vec<Bbox>)
    ensures
        r@ == boxes@.map_values(|b: ResponseBbox| bbox_of(b)),
{
    let mut r: Vec<Bbox> = Vec::new();
    let mut i: usize = 0;
    while i < boxes.len()
        invariant
            i <= boxes@.len(),
            r@ == boxes@.take(i as int).map_values(|b: ResponseBbox| bbox_of(b)),
        decreases boxes@.len() - i,
    {
        r.push(convert_bbox(&boxes[i]));
        i = i + 1;
    }
    r
}

/// What the pending map keeps of a frame: all but its picture.
pub open spec fn kept_of(frame: FrameView) -> PendingFrameView {
    PendingFrameView {
        file: frame.file.file_path,
        frame_index: frame.frame_index,
        shoot_time: frame.shoot_time,
        total_frames: frame.total_frames,
        iframe: frame.iframe,
    }
}

/// What the pending map keeps of `frame`.
pub open spec fn skeleton_of(frame: Frame) -> PendingFrameView {
    kept_of(frame@)
}

/// `request` carries `frame` under the id `uuid`, with the two thresholds.
pub open spec fn carries(
    request: DetectRequest,
    frame: Frame,
    uuid: Seq<char>,
    iou: u32,
    score: u32,
) -> bool {
    &&& request.uuid@ == uuid
    &&& request.image@ == frame.webp@
    &&& request.width == frame.width as i32
    &&& request.height == frame.height as i32
    &&& request.iou == iou
    &&& request.score == score
    &&& request.iframe == frame.iframe
}

/// The record of a file that was given up before any request was made.
pub open spec fn failure_of(file: Seq<char>, error: Seq<char>) -> ExportFrameView {
    ExportFrameView {
        file,
        frame_index: 0,
        shoot_time: None,
        total_frames: 0,
        iframe: false,
        bboxes: None,
        label: None,
        error: Some(error),
    }
}

/// The record that stands for a per-file error in the export.
pub fn record_of_error(err: ErrFile) -> (r: ExportFrame)
    ensures
        r@ == failure_of(err.file@.file_path, err.error@),
        r@.is_failed(),
        r@.well_formed(),
{
    ExportFrame::failure(err.file.file_path, err.error)
}

/// Calls `uuid::Uuid::new_v4` and writes the id in its hyphenated form. The
/// id is drawn from the system's random numbers, so nothing is claimed of it.
#[verifier::external_body]
fn fresh_uuid() -> String {
    uuid::Uuid::new_v4().to_string()
}

/// One step of the bridge, as the laws below speak of it.
pub enum BridgeEvent {
    /// A frame was registered under `uuid` and its request sent.
    Sent { uuid: Seq<char>, frame: PendingFrameView },
    /// A per-file error came from the frame producer.
    Failed { file: Seq<char>, error: Seq<char> },
    /// A reply came from the service.
    Reply { uuid: Seq<char>, boxes: Seq<ResponseBbox>, label: Seq<char> },
}

/// The pending map after the bridge, starting empty, has taken `events`.
pub open spec fn pending_after(events: Seq<BridgeEvent>) -> Map<Seq<char>, PendingFrameView>
    decreases events.len(),
{
    if events.len() == 0 {
        Map::empty()
    } else {
        let before = pending_after(events.drop_last());
        match events.last() {
            BridgeEvent::Sent { uuid, frame } => before.insert(uuid, frame),
            BridgeEvent::Failed { .. } => before,
            BridgeEvent::Reply { uuid, .. } => before.remove(uuid),
        }
    }
}

/// The record that event `i` of `events` hands to the exporter, if it hands
/// one.
pub open spec fn exported_at(events: Seq<BridgeEvent>, i: int) -> Option<ExportFrameView> {
    let before = pending_after(events.take(i));
    match events[i] {
        BridgeEvent::Sent { .. } => None,
        BridgeEvent::Failed { file, error } => Some(failure_of(file, error)),
        BridgeEvent::Reply { uuid, boxes, label } => if before.contains_key(uuid) {
            Some(merged(before[uuid], boxes, label))
        } else {
            None
        },
    }
}

/// Event `j` of `events` sent `frame` under `uuid`.
pub open spec fn sent_at(events: Seq<BridgeEvent>, j: int, uuid: Seq<char>, frame: PendingFrameView)
    -> bool {
    0 <= j < events.len() && events[j] == (BridgeEvent::Sent { uuid, frame })
}

/// Every request was sent under an id that was not pending at that time.
pub open spec fn sends_unused(events: Seq<BridgeEvent>) -> bool {
    forall|j: int|
        0 <= j < events.len() && (#[trigger] events[j]) is Sent ==> !pending_after(
            events.take(j),
        ).contains_key(events[j]->Sent_uuid)
}

/// One more event keeps the ids unused, where the event is no request or
/// is a request under an id that is not pending.
pub proof fn lemma_sends_unused_push(events: Seq<BridgeEvent>, event: BridgeEvent)
    requires
        sends_unused(events),
        event is Sent ==> !pending_after(events).contains_key(event->Sent_uuid),
    ensures
        sends_unused(events.push(event)),
{
    let more = events.push(event);
    assert forall|j: int| 0 <= j < more.len() && (#[trigger] more[j]) is Sent implies !pending_after(
        more.take(j),
    ).contains_key(more[j]->Sent_uuid) by {
        if j < events.len() {
            assert(more.take(j) =~= events.take(j));
            assert(more[j] == events[j]);
        } else {
            assert(more.take(j) =~= events);
        }
    }
}

/// How often a fresh id is drawn for one frame before the frame is given
/// up.
pub const ID_ATTEMPTS: usize = 3;

/// The text of the error for a frame for which no unused id was drawn.
pub open spec fn no_id_text() -> Seq<char> {
    "No unused request id"@
}

/// The entries of the pending map, and all that led to them.
struct Entries {
    frames: StringHashMap<PendingFrame>,
    history: Ghost<Seq<BridgeEvent>>,
}

impl Entries {
    spec fn pending(&self) -> Map<Seq<char>, PendingFrameView> {
        self.frames@.map_values(|p: PendingFrame| p@)
    }

    fn new() -> (r: Entries)
        ensures
            r.pending() == Map::<Seq<char>, PendingFrameView>::empty(),
            r.history@ == Seq::<BridgeEvent>::empty(),
    {
        let r = Entries { frames: StringHashMap::new(), history: Ghost(Seq::empty()) };
        r
    }
}

/// The frames whose replies are awaited, each under the id of its request.
/// The map holds at any time what its history has left pending.
pub struct PendingMap {
    entries: Entries,
}

impl View for PendingMap {
    type V = Map<Seq<char>, PendingFrameView>;

    closed spec fn view(&self) -> Map<Seq<char>, PendingFrameView> {
        self.entries.pending()
    }
}

impl PendingMap {
    #[verifier::type_invariant]
    spec fn well_formed(&self) -> bool {
        &&& self.entries.pending() == pending_after(self.entries.history@)
        &&& sends_unused(self.entries.history@)
    }

    /// All that the bridge has taken in so far, oldest first.
    pub closed spec fn history(&self) -> Seq<BridgeEvent> {
        self.entries.history@
    }

    pub fn new() -> (r: PendingMap)
        ensures
            r.history() == Seq::<BridgeEvent>::empty(),
            r@ == Map::<Seq<char>, PendingFrameView>::empty(),
    {
        PendingMap { entries: Entries::new() }
    }

    pub fn len(&self) -> (n: usize)
        ensures
            n == self@.len(),
    {
        proof {
            vstd::hash_map::axiom_string_hash_map_spec_len(&self.entries.frames);
            assert(self@.dom() =~= self.entries.frames@.dom());
        }
        self.entries.frames.len()
    }

    pub fn contains(&self, uuid: &str) -> (r: bool)
        ensures
            r == self@.contains_key(uuid@),
            self@ == pending_after(self.history()),
            sends_unused(self.history()),
    {
        proof {
            use_type_invariant(self);
        }
        self.entries.frames.contains_key(uuid)
    }

    /// Puts `frame` into the map under `uuid` and makes the request that
    /// carries it. An id that is pending is refused: the frame comes back
    /// and nothing changes.
    pub fn register(&mut self, frame: Frame, uuid: String, iou: u32, score: u32) -> (r: Result<
        DetectRequest,
        Frame,
    >)
        ensures
            final(self)@ == pending_after(final(self).history()),
            sends_unused(final(self).history()),
            match r {
                Ok(request) => {
                    &&& !old(self)@.contains_key(uuid@)
                    &&& carries(request, frame, uuid@, iou, score)
                    &&& final(self)@ == old(self)@.insert(uuid@, skeleton_of(frame))
                    &&& final(self).history() == old(self).history().push(
                        BridgeEvent::Sent { uuid: uuid@, frame: skeleton_of(frame) },
                    )
                },
                Err(back) => {
                    &&& old(self)@.contains_key(uuid@)
                    &&& back == frame
                    &&& final(self)@ == old(self)@
                    &&& final(self).history() == old(self).history()
                },
            },
    {
        proof {
            use_type_invariant(&*self);
        }
        if self.entries.frames.contains_key(uuid.as_str()) {
            return Err(frame);
        }
        let pending = PendingFrame {
            file: frame.file.file_path,
            frame_index: frame.frame_index,
            shoot_time: frame.shoot_time,
            total_frames: frame.total_frames,
            iframe: frame.iframe,
        };
        let mut entries = Entries::new();
        std::mem::swap(&mut entries, &mut self.entries);
        let ghost before = entries.frames@;
        let ghost event = BridgeEvent::Sent { uuid: uuid@, frame: pending@ };
        entries.frames.insert(uuid.clone(), pending);
        proof {
            assert(before.insert(uuid@, pending).map_values(|p: PendingFrame| p@) =~= before.map_values(
                |p: PendingFrame| p@,
            ).insert(uuid@, pending@));
            assert(entries.history@.push(event).drop_last() =~= entries.history@);
            lemma_sends_unused_push(entries.history@, event);
        }
        entries.history = Ghost(entries.history@.push(event));
        self.entries = entries;
        Ok(
            DetectRequest {
                uuid,
                image: frame.webp,
                width: frame.width as i32,
                height: frame.height as i32,
                iou,
                score,
                iframe: frame.iframe,
            },
        )
    }

    /// Puts the record of a failure into the history.
    fn note_failure(&mut self, file: String, error: String) -> (record: ExportFrame)
        ensures
            record@ == failure_of(file@, error@),
            final(self)@ == pending_after(final(self).history()),
            sends_unused(final(self).history()),
            final(self)@ == old(self)@,
            final(self).history() == old(self).history().push(
                BridgeEvent::Failed { file: file@, error: error@ },
            ),
            Some(record@) == exported_at(final(self).history(), final(self).history().len() - 1),
    {
        proof {
            use_type_invariant(&*self);
        }
        let ghost event = BridgeEvent::Failed { file: file@, error: error@ };
        let mut entries = Entries::new();
        std::mem::swap(&mut entries, &mut self.entries);
        proof {
            assert(entries.history@.push(event).drop_last() =~= entries.history@);
            lemma_sends_unused_push(entries.history@, event);
        }
        entries.history = Ghost(entries.history@.push(event));
        self.entries = entries;
        ExportFrame::failure(file, error)
    }

    /// Takes an item of the frame producer. A frame gets a fresh id that
    /// is not pending, an entry in the map and a request; an id that is
    /// pending is drawn again, and a frame for which `ID_ATTEMPTS` draws
    /// gave no unused id goes to the export as a failure of its file. A
    /// per-file error goes to the export as it is. Either failure leaves
    /// the map alone.
    pub fn submit(&mut self, item: WebpItem, iou: u32, score: u32) -> (out: Outbound)
        ensures
            final(self)@ == pending_after(final(self).history()),
            sends_unused(final(self).history()),
            match item {
                WebpItem::Frame(frame) => match out {
                    Outbound::Request(request) => {
                        &&& !old(self)@.contains_key(request.uuid@)
                        &&& carries(request, frame, request.uuid@, iou, score)
                        &&& final(self)@ == old(self)@.insert(request.uuid@, skeleton_of(frame))
                        &&& final(self).history() == old(self).history().push(
                            BridgeEvent::Sent { uuid: request.uuid@, frame: skeleton_of(frame) },
                        )
                    },
                    Outbound::Export(record) => {
                        &&& record@ == failure_of(frame.file@.file_path, no_id_text())
                        &&& final(self)@ == old(self)@
                        &&& final(self).history() == old(self).history().push(
                            BridgeEvent::Failed {
                                file: frame.file@.file_path,
                                error: no_id_text(),
                            },
                        )
                    },
                },
                WebpItem::ErrFile(err) => {
                    &&& out matches Outbound::Export(record)
                    &&& record@ == failure_of(err.file@.file_path, err.error@)
                    &&& final(self)@ == old(self)@
                    &&& final(self).history() == old(self).history().push(
                        BridgeEvent::Failed { file: err.file@.file_path, error: err.error@ },
                    )
                },
            },
    {
        proof {
            use_type_invariant(&*self);
        }
        match item {
            WebpItem::Frame(frame) => {
                let ghost given = frame;
                let ghost map = self@;
                let ghost history = self.history();
                let mut frame = frame;
                let mut tries: usize = 0;
                while tries < ID_ATTEMPTS
                    invariant
                        frame == given,
                        item == WebpItem::Frame(given),
                        self@ == map,
                        self.history() == history,
                        map == old(self)@,
                        history == old(self).history(),
                    decreases ID_ATTEMPTS - tries,
                {
                    match self.register(frame, fresh_uuid(), iou, score) {
                        Ok(request) => {
                            return Outbound::Request(request);
                        },
                        Err(back) => {
                            frame = back;
                        },
                    }
                    tries = tries + 1;
                }
                let record = self.note_failure(
                    frame.file.file_path,
                    String::from_str("No unused request id"),
                );
                Outbound::Export(record)
            },
            WebpItem::ErrFile(err) => {
                let record = self.note_failure(err.file.file_path, err.error);
                Outbound::Export(record)
            },
        }
    }

    /// Takes a reply: where a frame is pending under the reply's id, the
    /// frame leaves the map and comes back as a record with the reply's
    /// detections and label. A reply with an unknown id gives nothing.
    pub fn complete(&mut self, response: DetectResponse) -> (r: Option<ExportFrame>)
        ensures
            final(self).history() == old(self).history().push(
                BridgeEvent::Reply {
                    uuid: response.uuid@,
                    boxes: response.bboxs@,
                    label: response.label@,
                },
            ),
            match r {
                Some(record) => Some(record@),
                None => None,
            } == exported_at(final(self).history(), final(self).history().len() - 1),
            final(self)@ == old(self)@.remove(response.uuid@),
            final(self)@ == pending_after(final(self).history()),
            sends_unused(final(self).history()),
            match r {
                Some(record) => old(self)@.contains_key(response.uuid@) && record@ == merged(
                    old(self)@[response.uuid@],
                    response.bboxs@,
                    response.label@,
                ),
                None => !old(self)@.contains_key(response.uuid@),
            },
    {
        proof {
            use_type_invariant(&*self);
        }
        let mut entries = Entries::new();
        std::mem::swap(&mut entries, &mut self.entries);
        let ghost before = entries.frames@;
        let found = match entries.frames.get(response.uuid.as_str()) {
            Some(pending) => Some(
                ExportFrame {
                    file: pending.file.clone(),
                    frame_index: pending.frame_index,
                    shoot_time: clone_text(&pending.shoot_time),
                    total_frames: pending.total_frames,
                    iframe: pending.iframe,
                    bboxes: Some(convert_bboxes(&response.bboxs)),
                    label: Some(response.label),
                    error: None,
                },
            ),
            None => None,
        };
        entries.frames.remove(response.uuid.as_str());
        let ghost event = BridgeEvent::Reply {
            uuid: response.uuid@,
            boxes: response.bboxs@,
            label: response.label@,
        };
        proof {
            assert(before.remove(response.uuid@).map_values(|p: PendingFrame| p@) =~= before.map_values(
                |p: PendingFrame| p@,
            ).remove(response.uuid@));
            assert(entries.history@.push(event).take(entries.history@.len() as int)
                =~= entries.history@);
            lemma_sends_unused_push(entries.history@, event);
        }
        entries.history = Ghost(entries.history@.push(event));
        self.entries = entries;
        found
    }
}

/// Whatever is pending was sent under its id, and not answered since.
pub proof fn lemma_pending_was_sent(events: Seq<BridgeEvent>, uuid: Seq<char>)
    requires
        pending_after(events).contains_key(uuid),
    ensures
        exists|j: int| sent_at(events, j, uuid, pending_after(events)[uuid]),
    decreases events.len(),
{
    let front = events.drop_last();
    let frame = pending_after(events)[uuid];
    match events.last() {
        BridgeEvent::Sent { uuid: u, frame: f } => {
            if u == uuid {
                assert(sent_at(events, events.len() - 1, uuid, frame));
            } else {
                lemma_pending_was_sent(front, uuid);
                let j = choose|j: int| sent_at(front, j, uuid, frame);
                assert(sent_at(events, j, uuid, frame));
            }
        },
        _ => {
            lemma_pending_was_sent(front, uuid);
            let j = choose|j: int| sent_at(front, j, uuid, frame);
            assert(sent_at(events, j, uuid, frame));
        },
    }
}

/// Correlation is sound: a record that a reply completes is the frame that
/// an earlier request sent under the reply's id, so it names that request's
/// file, frame index, total and shoot time, with the reply's detections and
/// label.
pub proof fn lemma_correlation_sound(events: Seq<BridgeEvent>, i: int)
    requires
        0 <= i < events.len(),
        events[i] is Reply,
        exported_at(events, i) is Some,
    ensures
        exists|j: int, frame: PendingFrameView|
            j < i && #[trigger] sent_at(events, j, events[i]->Reply_uuid, frame) && exported_at(
                events,
                i,
            ) == Some(merged(frame, events[i]->boxes, events[i]->label)) && exported_at(
                events,
                i,
            )->0.file == frame.file,
{
    let before = events.take(i);
    let uuid = events[i]->Reply_uuid;
    lemma_pending_was_sent(before, uuid);
    let frame = pending_after(before)[uuid];
    let j = choose|j: int| sent_at(before, j, uuid, frame);
    assert(sent_at(events, j, uuid, frame));
}

/// A reply finds its frame: where a frame was sent under an id, and since
/// then neither another frame was sent under that id nor a reply came for
/// it, the next reply with the id gives the record of that frame.
pub proof fn lemma_reply_completes_frame(events: Seq<BridgeEvent>, j: int, k: int)
    requires
        0 <= j < k < events.len(),
        events[j] is Sent,
        events[k] is Reply,
        events[k]->Reply_uuid == events[j]->Sent_uuid,
        forall|i: int|
            j < i < k ==> !(#[trigger] events[i] is Sent && events[i]->Sent_uuid
                == events[j]->Sent_uuid) && !(events[i] is Reply && events[i]->Reply_uuid
                == events[j]->Sent_uuid),
    ensures
        exported_at(events, k) == Some(
            merged(events[j]->frame, events[k]->boxes, events[k]->label),
        ),
{
    lemma_pending_since_sent(events.take(k), j);
}

proof fn lemma_pending_since_sent(events: Seq<BridgeEvent>, j: int)
    requires
        0 <= j < events.len(),
        events[j] is Sent,
        forall|i: int|
            j < i < events.len() ==> !(#[trigger] events[i] is Sent && events[i]->Sent_uuid
                == events[j]->Sent_uuid) && !(events[i] is Reply && events[i]->Reply_uuid
                == events[j]->Sent_uuid),
    ensures
        pending_after(events).contains_key(events[j]->Sent_uuid),
        pending_after(events)[events[j]->Sent_uuid] == events[j]->frame,
    decreases events.len(),
{
    if j < events.len() - 1 {
        let front = events.drop_last();
        assert forall|i: int| j < i < front.len() implies !(#[trigger] front[i] is Sent
            && front[i]->Sent_uuid == front[j]->Sent_uuid) && !(front[i] is Reply
            && front[i]->Reply_uuid == front[j]->Sent_uuid) by {
        }
        lemma_pending_since_sent(front, j);
    }
}

/// A frame is completed once: of two replies with one id, with no request
/// sent under that id between them, the second gives no record.
pub proof fn lemma_second_reply_dropped(events: Seq<BridgeEvent>, i: int, k: int)
    requires
        0 <= i < k < events.len(),
        events[i] is Reply,
        events[k] is Reply,
        events[i]->Reply_uuid == events[k]->Reply_uuid,
        forall|j: int|
            i < j < k ==> !(#[trigger] events[j] is Sent && events[j]->Sent_uuid
                == events[k]->Reply_uuid),
    ensures
        exported_at(events, k) is None,
{
    lemma_absent_since_reply(events.take(k), i, events[k]->Reply_uuid);
}

proof fn lemma_absent_since_reply(events: Seq<BridgeEvent>, i: int, uuid: Seq<char>)
    requires
        0 <= i < events.len(),
        events[i] is Reply,
        events[i]->Reply_uuid == uuid,
        forall|j: int|
            i < j < events.len() ==> !(#[trigger] events[j] is Sent && events[j]->Sent_uuid
                == uuid),
    ensures
        !pending_after(events).contains_key(uuid),
    decreases events.len(),
{
    if i < events.len() - 1 {
        let front = events.drop_last();
        assert forall|j: int| i < j < front.len() implies !(#[trigger] front[j] is Sent
            && front[j]->Sent_uuid == uuid) by {
        }
        lemma_absent_since_reply(front, i, uuid);
    }
}

/// A request stays pending until its reply: where ids are unused when
/// they are taken, a frame sent under an id is pending under it, as it was
/// sent, at every later time up to the first reply with the id.
pub proof fn lemma_request_stays_pending(events: Seq<BridgeEvent>, j: int, i: int)
    requires
        sends_unused(events),
        0 <= j < i <= events.len(),
        events[j] is Sent,
        forall|m: int|
            j < m < i ==> !(#[trigger] events[m] is Reply && events[m]->Reply_uuid
                == events[j]->Sent_uuid),
    ensures
        pending_after(events.take(i)).contains_key(events[j]->Sent_uuid),
        pending_after(events.take(i))[events[j]->Sent_uuid] == events[j]->frame,
    decreases i - j,
{
    let uuid = events[j]->Sent_uuid;
    let now = events.take(i);
    assert(now.drop_last() =~= events.take(i - 1));
    assert(now.last() == events[i - 1]);
    if i - 1 > j {
        lemma_request_stays_pending(events, j, i - 1);
        let last = events[i - 1];
        if last is Sent && last->Sent_uuid == uuid {
            assert(!pending_after(events.take(i - 1)).contains_key(last->Sent_uuid));
        }
    }
}

/// One request, one record: where ids are unused when they are taken, the
/// first reply that names the id of a request gives the record of that
/// request's frame, and no reply after it gives a record for the request
/// again.
pub proof fn lemma_one_record_per_request(events: Seq<BridgeEvent>, j: int, k: int)
    requires
        sends_unused(events),
        0 <= j < k < events.len(),
        events[j] is Sent,
        events[k] is Reply,
        events[k]->Reply_uuid == events[j]->Sent_uuid,
        forall|m: int|
            j < m < k ==> !(#[trigger] events[m] is Reply && events[m]->Reply_uuid
                == events[j]->Sent_uuid),
    ensures
        exported_at(events, k) == Some(
            merged(events[j]->frame, events[k]->boxes, events[k]->label),
        ),
        forall|n: int|
            k < n < events.len() && (#[trigger] events[n]) is Reply && events[n]->Reply_uuid
                == events[j]->Sent_uuid && (forall|m: int|
                k < m < n ==> !(#[trigger] events[m] is Sent && events[m]->Sent_uuid
                    == events[j]->Sent_uuid)) ==> exported_at(events, n) is None,
{
    lemma_request_stays_pending(events, j, k);
    assert forall|n: int|
        k < n < events.len() && (#[trigger] events[n]) is Reply && events[n]->Reply_uuid
            == events[j]->Sent_uuid && (forall|m: int|
            k < m < n ==> !(#[trigger] events[m] is Sent && events[m]->Sent_uuid
                == events[j]->Sent_uuid)) implies exported_at(events, n) is None by {
        lemma_second_reply_dropped(events, k, n);
    }
}

/// Every record that the bridge hands to the exporter holds exactly one
/// outcome: the detections and label of a reply, or the error of a file.
pub proof fn lemma_exported_outcome_exclusive(events: Seq<BridgeEvent>, i: int)
    requires
        0 <= i < events.len(),
    ensures
        exported_at(events, i) matches Some(record) ==> record.well_formed() && (record.is_failed()
            <==> events[i] is Failed) && (record.is_detected() <==> events[i] is Reply),
{
}

} // verus!
