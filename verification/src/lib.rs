//! Verified core of an episode acquisition pipeline for segmented video
//! streams: candidate source selection, playlist parsing and planning, the
//! script-deobfuscation rewrite used to recover a playlist location, segment
//! naming and reassembly ordering, progress accounting with cooperative
//! cancellation, and the download job state machine. Network and file I/O
//! live outside this crate; the functions here decide, parse and transform.

pub mod text;
pub mod candidate;
pub mod errors;
pub mod manifest;
pub mod job;
pub mod progress;
pub mod naming;
pub mod hexcodec;
pub mod decrypt;
pub mod resolver;
pub mod settings;
pub mod api_types;
pub mod tracker;
