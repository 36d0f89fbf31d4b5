//! The unit of export: one record per extracted frame, holding either the
//! detections made on it or the reason it could not be processed.

use vstd::prelude::*;

verus! {

/// One detection. The four corners and the score hold the bits of the
/// single-precision numbers that the service sent; they are carried, never
/// computed on.
#[derive(Clone, Copy, Debug, PartialEq, Eq, Structural)]
pub struct Bbox {
    pub x1: u32,
    pub y1: u32,
    pub x2: u32,
    pub y2: u32,
    pub class: usize,
    pub score: u32,
}

/// One row of the export.
#[derive(Debug, PartialEq, Eq)]
pub struct ExportFrame {
    pub file: String,
    pub frame_index: usize,
    pub shoot_time: Option<String>,
    pub total_frames: usize,
    pub iframe: bool,
    pub bboxes: Option<Vec<Bbox>>,
    pub label: Option<String>,
    pub error: Option<String>,
}

pub struct ExportFrameView {
    pub file: Seq<char>,
    pub frame_index: usize,
    pub shoot_time: Option<Seq<char>>,
    pub total_frames: usize,
    pub iframe: bool,
    pub bboxes: Option<Seq<Bbox>>,
    pub label: Option<Seq<char>>,
    pub error: Option<Seq<char>>,
}

pub open spec fn text_of(s: Option<String>) -> Option<Seq<char>> {
    match s {
        Some(t) => Some(t@),
        None => None,
    }
}

pub open spec fn boxes_of(b: Option<Vec<Bbox>>) -> Option<Seq<Bbox>> {
    match b {
        Some(v) => Some(v@),
        None => None,
    }
}

impl View for ExportFrame {
    type V = ExportFrameView;

    open spec fn view(&self) -> ExportFrameView {
        ExportFrameView {
            file: self.file@,
            frame_index: self.frame_index,
            shoot_time: text_of(self.shoot_time),
            total_frames: self.total_frames,
            iframe: self.iframe,
            bboxes: boxes_of(self.bboxes),
            label: text_of(self.label),
            error: text_of(self.error),
        }
    }
}

impl ExportFrameView {
    /// The frame was answered: detections and label, no error.
    pub open spec fn is_detected(self) -> bool {
        self.bboxes is Some && self.label is Some && self.error is None
    }

    /// The file could not be processed: an error, no detections, no label.
    pub open spec fn is_failed(self) -> bool {
        self.bboxes is None && self.label is None && self.error is Some
    }

    /// A record holds exactly one of the two outcomes.
    pub open spec fn well_formed(self) -> bool {
        self.is_detected() != self.is_failed()
    }
}

pub fn clone_text(s: &Option<String>) -> (r: Option<String>)
    ensures
        r == *s,
{
    match s {
        Some(t) => Some(t.clone()),
        None => None,
    }
}

pub fn clone_boxes(b: &Vec<Bbox>) -> (r: Vec<Bbox>)
    ensures
        r@ == b@,
{
    let mut r: Vec<Bbox> = Vec::new();
    let mut i: usize = 0;
    while i < b.len()
        invariant
            i <= b@.len(),
            r@ == b@.take(i as int),
        decreases b@.len() - i,
    {
        r.push(b[i]);
        i = i + 1;
    }
    r
}

impl Clone for ExportFrame {
    fn clone(&self) -> (r: Self)
        ensures
            r@ == self@,
    {
        ExportFrame {
            file: self.file.clone(),
            frame_index: self.frame_index,
            shoot_time: clone_text(&self.shoot_time),
            total_frames: self.total_frames,
            iframe: self.iframe,
            bboxes: match &self.bboxes {
                Some(b) => Some(clone_boxes(b)),
                None => None,
            },
            label: clone_text(&self.label),
            error: clone_text(&self.error),
        }
    }
}

impl ExportFrame {
    /// The record of a file that gave no frame: index and total are 0, and
    /// `error` says why.
    pub fn failure(file: String, error: String) -> (r: ExportFrame)
        ensures
            r@ == (ExportFrameView {
                file: file@,
                frame_index: 0,
                shoot_time: None,
                total_frames: 0,
                iframe: false,
                bboxes: None,
                label: None,
                error: Some(error@),
            }),
            r@.is_failed(),
            r@.well_formed(),
    {
        ExportFrame {
            file,
            frame_index: 0,
            shoot_time: None,
            total_frames: 0,
            iframe: false,
            bboxes: None,
            label: None,
            error: Some(error),
        }
    }

    pub fn is_detected(&self) -> (r: bool)
        ensures
            r == self@.is_detected(),
    {
        self.bboxes.is_some() && self.label.is_some() && self.error.is_none()
    }

    pub fn is_failed(&self) -> (r: bool)
        ensures
            r == self@.is_failed(),
    {
        self.bboxes.is_none() && self.label.is_none() && self.error.is_some()
    }

    pub fn is_well_formed(&self) -> (r: bool)
        ensures
            r == self@.well_formed(),
    {
        self.is_detected() != self.is_failed()
    }
}

/// The views of `records`, in order.
pub open spec fn record_views(records: Seq<ExportFrame>) -> Seq<ExportFrameView> {
    records.map_values(|r: ExportFrame| r@)
}

} // verus!
