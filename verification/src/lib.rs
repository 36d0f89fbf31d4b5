//! Decision core of a batch pipeline that turns a folder of images and videos
//! into detection records: which files are media, what is sent to the
//! detection service and how its replies find their frames again, what the
//! exporter holds and when it writes, and what a resumed run leaves out.

pub mod bridge;
pub mod channel;
pub mod config;
pub mod decode;
pub mod dimensions;
pub mod export;
pub mod files;
pub mod geometry;
pub mod media;
pub mod pipeline;
pub mod progress;
pub mod record;
pub mod resume;
pub mod run;
pub mod sampling;
pub mod session;
pub mod text;

pub use bridge::{DetectRequest, DetectResponse, Outbound, PendingMap, ResponseBbox};
pub use config::{Config, ConfigOptions, DetectOptions};
pub use export::{CheckpointBuffer, ExportFormat};
pub use files::{index_files, FileItem, MediaKind};
pub use media::{
    media_worker, process_image, process_video, ErrFile, Frame, MediaError, WebpItem,
};
pub use record::{Bbox, ExportFrame};
pub use resume::resume_from_checkpoint;
pub use sampling::sample_evenly;
