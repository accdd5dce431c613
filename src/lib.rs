//! Tracking of concurrent, cancellable downloads: per-transfer progress
//! records, a registry of running transfers, the decisions of the streaming
//! copy, and collision-free naming of the persisted file.

pub mod downloader;
pub mod error;
pub mod ident;
pub mod persist;
pub mod progress;
pub mod progress_map;

pub use downloader::{Downloader, Status};
pub use error::Error;
pub use persist::Persist;
pub use progress::{Item, Progress, ProgressView};
pub use progress_map::ProgressMap;
