use file_downloader::download::download_task::{
    accepts_chunk_response, buffer_is_full, retry_exhausted, DownloadTaskState, TaskStatus, TaskStep, CHUNK_BUFFER_SIZE,
};
use file_downloader::download::downloader::{download_start_check, DownloaderConfig, DEFAULT_CHUNK_SIZE};
use file_downloader::download::error::DownloadStartError;
use file_downloader::downloader::chunk_info::ChunkInfo;
use file_downloader::downloader::chunk_item::{note_failure, ChunkAction, ChunkDownload, ChunkEvent};
use file_downloader::downloader::download_way::buffer_overflows;
use file_downloader::downloader::chunk_range::ChunkRange;
use file_downloader::downloader::{HttpDownloaderBuilder, UrlFileName};
use file_downloader::task::progress_bar::ProgressBar;
use std::path::PathBuf;
use url::Url;

fn task() -> DownloadTaskState {
    DownloadTaskState::new("http://example.com/a.bin".to_string(), "/tmp/a.bin".to_string(), 100, 3)
}

#[test]
fn new_task_is_pending() {
    let t = task();
    assert_eq!(t.status, TaskStatus::Pending);
    assert!(t.is_pending());
    assert_eq!((t.file_size, t.downloaded, t.chunk_size, t.retry_times), (0, 0, 100, 3));
    assert_ne!(t.id, task().id);
}

#[test]
fn download_loop_fetches_chunks_until_complete() {
    let mut t = task();
    t.begin(Some(250));
    assert_eq!(t.status, TaskStatus::Downloading);
    assert_eq!(t.file_size, 250);
    assert_eq!(t.next_step(), TaskStep::FetchChunk { start: 0, end: 99 });
    t.record_chunk(100);
    assert_eq!(t.next_step(), TaskStep::FetchChunk { start: 100, end: 199 });
    t.record_chunk(100);
    assert_eq!(t.next_step(), TaskStep::FetchChunk { start: 200, end: 249 });
    t.record_chunk(50);
    assert_eq!(t.next_step(), TaskStep::Stop(TaskStatus::Completed));
}

#[test]
fn begin_keeps_a_known_size() {
    let mut t = task();
    t.file_size = 80;
    t.begin(Some(500));
    assert_eq!(t.file_size, 80);
    let mut u = task();
    u.begin(None);
    assert_eq!(u.file_size, 0);
    assert_eq!(u.next_step(), TaskStep::Stop(TaskStatus::Completed));
}

#[test]
fn size_is_asked_for_only_when_unknown() {
    let mut t = task();
    assert!(t.needs_size_query());
    t.begin(Some(250));
    assert!(!t.needs_size_query());
}

#[test]
fn paused_task_with_empty_chunks_stops() {
    let mut t = DownloadTaskState::new("http://example.com/a.bin".to_string(), "/tmp/a.bin".to_string(), 0, 3);
    t.begin(Some(1000));
    t.pause();
    assert_eq!(t.next_step(), TaskStep::Stop(TaskStatus::Paused));
    t.cancel();
    assert_eq!(t.next_step(), TaskStep::Stop(TaskStatus::Canceled));
}

#[test]
fn pause_only_stops_downloading_tasks() {
    let mut t = task();
    t.pause();
    assert_eq!(t.status, TaskStatus::Pending);
    t.begin(Some(1000));
    t.pause();
    assert_eq!(t.status, TaskStatus::Paused);
    assert_eq!(t.next_step(), TaskStep::Stop(TaskStatus::Paused));
}

#[test]
fn cancel_and_failure_stop_the_loop() {
    let mut t = task();
    t.begin(Some(1000));
    t.cancel();
    assert_eq!(t.next_step(), TaskStep::Stop(TaskStatus::Canceled));
    t.fail();
    assert_eq!(t.status, TaskStatus::Failed);
    assert_eq!(t.next_step(), TaskStep::Fail);
}

#[test]
fn outcome_sets_the_final_status() {
    let mut t = task();
    t.begin(Some(10));
    t.apply_outcome(Some(TaskStatus::Completed));
    assert_eq!(t.status, TaskStatus::Completed);
    t.apply_outcome(None);
    assert_eq!(t.status, TaskStatus::Failed);
    t.apply_outcome(Some(TaskStatus::Canceled));
    assert_eq!(t.status, TaskStatus::Canceled);
    t.apply_outcome(Some(TaskStatus::Paused));
    assert_eq!(t.status, TaskStatus::Canceled);
    t.status = TaskStatus::Paused;
    assert!(t.chunk_interrupted());
}

#[test]
fn responses_buffers_and_retries() {
    assert!(accepts_chunk_response(206));
    assert!(accepts_chunk_response(200));
    assert!(!accepts_chunk_response(404));
    assert!(!accepts_chunk_response(302));
    assert!(buffer_is_full(CHUNK_BUFFER_SIZE));
    assert!(!buffer_is_full(CHUNK_BUFFER_SIZE - 1));
    assert!(!retry_exhausted(1, 3));
    assert!(retry_exhausted(3, 3));
    assert_eq!(note_failure(0, 3), Some(1));
    assert_eq!(note_failure(3, 3), None);
}

#[test]
fn resumed_request_starts_after_received_bytes() {
    let info = ChunkInfo { index: 4, range: ChunkRange::new(1000, 1999) };
    assert_eq!(info.range.clone_with_offset(250), ChunkRange::new(1250, 1999));
    assert!(buffer_overflows(900, 200, 1024));
    assert!(!buffer_overflows(824, 200, 1024));
}

#[test]
fn config_names_file_after_last_segment() {
    let url = Url::parse("https://example.com/videos/movie.mp4").unwrap();
    let config = DownloaderConfig::from_url(url.clone(), PathBuf::from("/downloads"));
    assert_eq!(config.file_name, "movie.mp4");
    assert_eq!(config.url, url);
    assert_eq!((config.chunk_size, config.concurrent, config.retry_count), (DEFAULT_CHUNK_SIZE, 3, 3));
    assert_eq!(config.file_path(), PathBuf::from("/downloads/movie.mp4"));
    let no_path = Url::parse("data:text/plain,hello").unwrap();
    assert_eq!(DownloaderConfig::from_url(no_path, PathBuf::from("/d")).file_name.len(), 36);
}

#[test]
fn url_file_name_defaults_to_index() {
    assert_eq!(Url::parse("https://example.com/a/b.zip").unwrap().file_name(), "b.zip");
    assert_eq!(Url::parse("https://example.com/a/").unwrap().file_name(), "index.html");
    assert_eq!(Url::parse("https://example.com").unwrap().file_name(), "index.html");
    assert_eq!(Url::parse("mailto:someone@example.com").unwrap().file_name(), "index.html");
}

#[test]
fn start_check_reports_each_reason() {
    assert_eq!(download_start_check(true, true), Err(DownloadStartError::AlreadyDownloading));
    assert_eq!(download_start_check(false, false), Err(DownloadStartError::DirectoryDoesNotExist));
    assert_eq!(download_start_check(false, true), Ok(()));
}

#[test]
fn progress_bar_lays_out_two_lines() {
    let mut bar = ProgressBar::with_terminal_columns(Some(24), 256);
    let progress = ProgressBar::progress(6, 20);
    assert_eq!(progress, 30);
    let text = bar.update(progress, "1 B/s ", "6 B / 20 B");
    assert_eq!(text, "1 B/s         6 B / 20 B\n[██████                ]");
    let narrow = ProgressBar::with_terminal_columns(Some(300), 40);
    let _ = narrow;
    let _ = ProgressBar::new(80);
}

#[test]
fn chunk_is_retried_max_times() {
    let max: u8 = 3;
    let mut count: u8 = 0;
    let mut retries = 0;
    while let Some(next) = note_failure(count, max) {
        count = next;
        retries += 1;
    }
    assert_eq!(retries, 3);
    assert_eq!(note_failure(0, 0), None);
}

#[test]
fn cloned_state_keeps_its_id() {
    let t = task();
    let copy = t.clone();
    assert_eq!(copy.id, t.id);
    assert_eq!(copy.url, t.url);
    assert_eq!(copy.status, t.status);
}

#[test]
fn builder_starts_at_the_defaults_and_names_the_file() {
    let url = Url::parse("http://example.com/files/a.bin").unwrap();
    let builder = HttpDownloaderBuilder::new(url.clone(), PathBuf::from("/tmp/d"));
    assert_eq!(builder.chunk_size, 4 * 1024 * 1024);
    assert_eq!(builder.download_connection_count, 3);
    assert_eq!(builder.request_retry_count, 3);
    assert_eq!(builder.downloaded_len_send_interval_ms, Some(300));
    assert!(builder.file_name.is_none());
    assert!(builder.client.is_none());
    assert!(builder.cancel_token.is_none());
    let (_client, config) = builder.build();
    assert_eq!(config.file_name, "a.bin");
    assert_eq!(config.url, url);
    assert_eq!(config.file_path(), PathBuf::from("/tmp/d/a.bin"));
    let (_, site) = HttpDownloaderBuilder::new(Url::parse("http://example.com/").unwrap(), PathBuf::from("/tmp")).build();
    assert_eq!(site.file_name, "index.html");
}

#[test]
fn builder_hands_on_its_cancel_token() {
    let token = tokio_util::sync::CancellationToken::new();
    let builder = HttpDownloaderBuilder::new(Url::parse("http://example.com/a").unwrap(), PathBuf::from("/tmp"))
        .set_client(Some(reqwest::Client::new()))
        .set_cancel_token(Some(token.clone()));
    assert!(builder.client.is_some());
    let (_client, config) = builder.build();
    token.cancel();
    assert!(config.cancel_token.unwrap().is_cancelled());
}

#[test]
fn chunk_download_resumes_after_the_bytes_received() {
    let range = ChunkRange::new(100, 199);
    let mut d = ChunkDownload::new();
    assert_eq!(d.request_range(range), ChunkRange::new(100, 199));
    assert_eq!(d.step(2, ChunkEvent::RequestFailed), ChunkAction::Request);
    assert_eq!(d.step(2, ChunkEvent::Replied), ChunkAction::ReadBody);
    assert_eq!(d.retry_count, 0);
    assert_eq!(d.step(2, ChunkEvent::Received(30)), ChunkAction::ReadBody);
    assert_eq!(d.step(2, ChunkEvent::StreamFailed), ChunkAction::Request);
    assert_eq!(d.request_range(range), ChunkRange::new(130, 199));
    assert_eq!(d.step(2, ChunkEvent::RequestFailed), ChunkAction::Request);
    assert_eq!(d.step(2, ChunkEvent::RequestFailed), ChunkAction::GiveUp);
}

#[test]
fn chunk_download_writes_before_giving_up_on_the_body() {
    let mut d = ChunkDownload::new();
    assert_eq!(d.step(0, ChunkEvent::Replied), ChunkAction::ReadBody);
    assert_eq!(d.step(0, ChunkEvent::Received(10)), ChunkAction::ReadBody);
    assert_eq!(d.step(0, ChunkEvent::StreamFailed), ChunkAction::WriteAndGiveUp);
    assert_eq!(d.received, 10);
    let mut e = ChunkDownload::new();
    assert_eq!(e.step(0, ChunkEvent::StreamEnded), ChunkAction::Finish);
}
