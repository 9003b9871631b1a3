pub mod archiver;
pub mod chunk_iterator;
pub mod chunk_manager;
pub mod chunk_range;
pub mod config;
pub mod download_task;
pub mod downloader;
pub mod error;
pub mod persistence;
pub mod url_parts;
pub mod util;
pub mod uuid_text;
