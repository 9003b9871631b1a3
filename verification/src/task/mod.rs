pub mod archive_data;
pub mod progress_bar;
pub mod task;
