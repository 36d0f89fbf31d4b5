//! The configuration of a run, and what follows from it before any file is
//! touched.

use crate::export::ExportFormat;
use crate::text::{trim, trimmed_text};
use vstd::prelude::*;
use vstd::string::StringExecFns;

verus! {

/// What the user chose for this run.
#[derive(Debug, PartialEq, Eq)]
pub struct DetectOptions {
    pub selected_folder: String,
    pub grpc_url: String,
    pub access_token: String,
    pub resume_path: Option<String>,
    pub guess: bool,
}

/// The settings of the pipeline. The two thresholds and the quality hold
/// the bits of single-precision numbers; the library hands them on and
/// never computes on them.
#[derive(Debug, PartialEq, Eq)]
pub struct ConfigOptions {
    pub confidence_threshold: u32,
    pub iou_threshold: u32,
    pub quality: u32,
    pub export_format: ExportFormat,
    pub max_frames: Option<usize>,
    pub iframe_only: bool,
    pub check_point: usize,
    pub buffer_path: Option<String>,
    pub buffer_size: usize,
}

#[derive(Debug, PartialEq, Eq)]
pub struct Config {
    pub detect_options: DetectOptions,
    pub config_options: ConfigOptions,
}

impl DetectOptions {
    /// The checkpoint to resume from: the path that was given, without the
    /// white space around it, unless nothing is left of it.
    pub open spec fn checkpoint_path(&self) -> Option<Seq<char>> {
        match self.resume_path {
            Some(p) => if trimmed_text(p@).len() > 0 {
                Some(trimmed_text(p@))
            } else {
                None
            },
            None => None,
        }
    }

    pub fn checkpoint(&self) -> (r: Option<String>)
        ensures
            match r {
                Some(p) => Some(p@),
                None => None,
            } == self.checkpoint_path(),
    {
        match &self.resume_path {
            Some(p) => {
                let path = trim(p.as_str());
                if !path.is_empty() {
                    Some(String::from_str(path))
                } else {
                    None
                }
            },
            None => None,
        }
    }
}

impl ConfigOptions {
    /// A run needs an interval of checkpoints of at least 1.
    pub open spec fn is_valid(&self) -> bool {
        self.check_point > 0
    }

    pub fn valid(&self) -> (r: bool)
        ensures
            r == self.is_valid(),
    {
        self.check_point > 0
    }

    /// Files are staged exactly where a scratch directory is given and the
    /// staging queue has room for at least one file.
    pub open spec fn stages(&self) -> bool {
        self.buffer_path is Some && self.buffer_size > 0
    }

    pub fn stager_enabled(&self) -> (r: bool)
        ensures
            r == self.stages(),
    {
        self.buffer_path.is_some() && self.buffer_size > 0
    }
}

} // verus!
