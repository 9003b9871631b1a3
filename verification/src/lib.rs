//! Chunked HTTP file downloading: the range bookkeeping, chunk scheduling and
//! task state machines, with their contracts.

pub mod cli;
pub mod download;
pub mod downloader;
pub mod downloader_build;
pub mod extension;
pub mod task;
pub mod utils;
