//! Core logic of a media transcoding job server.
//!
//! The server accepts transcoding jobs over a line-delimited JSON protocol,
//! dispatches each job to external media-processing subprocesses, and reports
//! structured progress, completion, and failure events.  This crate holds the
//! verified core: the progress parser, the encoder argument builders, the
//! bridge metadata handling, the request/response codec, and the job
//! scheduler's state machine.  Process management and the async I/O around
//! the core live outside the library.

pub mod braw;
pub mod ffmpeg;
pub mod json;
pub mod progress;
pub mod protocol;
pub mod r3d;
pub mod text;
pub mod transcode;
