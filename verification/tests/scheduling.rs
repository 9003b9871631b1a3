use file_downloader::download::chunk_manager::{ChunkManager, ChunkOutcome, DownloadStep};
use file_downloader::download::download_task::{should_start, TaskStatus};
use file_downloader::download::chunk_range::{ChunkData, ChunkInfo, ChunkRange, ChunkRangeIterator};
use file_downloader::download::error::DownloadEndCause;
use file_downloader::task::task::archive_progress;

fn manager(connections: u8, chunk_size: usize, content_length: u64) -> ChunkManager {
    ChunkManager::new(connections, ChunkRangeIterator::new(ChunkData::new(chunk_size, content_length)))
}

#[test]
fn start_hands_out_one_chunk_per_connection() {
    let mut m = manager(3, 100, 1000);
    let started = m.start_download();
    assert_eq!(started.len(), 3);
    assert_eq!(started[0], ChunkInfo { index: 1, range: ChunkRange::new(0, 99) });
    assert_eq!(started[2], ChunkInfo { index: 3, range: ChunkRange::new(200, 299) });
    assert!(!m.is_download_finished);
    assert_eq!(m.downloading_chunks.len(), 3);
    assert_eq!(m.chunk_iter.data.remaining_len(), 700);
}

#[test]
fn start_notes_when_chunks_run_out() {
    let mut m = manager(3, 100, 150);
    let started = m.start_download();
    assert_eq!(started.len(), 2);
    assert!(m.is_download_finished);
}

#[test]
fn finished_chunks_are_followed_until_the_end() {
    let mut m = manager(2, 100, 300);
    let started = m.start_download();
    assert_eq!(started.len(), 2);
    let finished = ChunkOutcome::Ended(DownloadEndCause::Finished);
    assert_eq!(m.on_chunk_end(1, finished), DownloadStep::Start(ChunkInfo { index: 3, range: ChunkRange::new(200, 299) }));
    assert_eq!(m.on_chunk_end(2, finished), DownloadStep::Wait);
    assert!(m.is_download_finished);
    assert_eq!(m.on_chunk_end(3, finished), DownloadStep::Stop(DownloadEndCause::Finished));
    assert!(m.downloading_chunks.is_empty());
}

#[test]
fn pause_cancel_and_failure_end_the_loop() {
    let mut m = manager(2, 10, 100);
    m.start_download();
    assert_eq!(m.on_chunk_end(1, ChunkOutcome::Ended(DownloadEndCause::Paused)), DownloadStep::Stop(DownloadEndCause::Paused));
    assert_eq!(m.on_chunk_end(2, ChunkOutcome::Ended(DownloadEndCause::Cancelled)), DownloadStep::Stop(DownloadEndCause::Cancelled));
    let mut m = manager(2, 10, 100);
    m.start_download();
    assert_eq!(m.on_chunk_end(2, ChunkOutcome::Failed), DownloadStep::Abort);
    assert_eq!(m.downloading_chunks.len(), 1);
}

#[test]
fn downloading_chunks_come_sorted_by_start() {
    let mut m = manager(3, 100, 1000);
    m.insert_downloading_chunk(ChunkInfo { index: 9, range: ChunkRange::new(900, 999) });
    m.insert_downloading_chunk(ChunkInfo { index: 2, range: ChunkRange::new(100, 199) });
    m.insert_downloading_chunk(ChunkInfo { index: 5, range: ChunkRange::new(400, 499) });
    let chunks = m.get_downloading_chunks();
    let starts: Vec<u64> = chunks.iter().map(|c| c.range.start).collect();
    assert_eq!(starts, vec![100, 400, 900]);
    assert_eq!(m.remove_downloading_chunk(5), 2);
    assert_eq!(m.get_downloading_chunks().len(), 2);
}

#[test]
fn archive_requeues_what_is_not_written() {
    let mut data = ChunkData::new(100, 1000);
    let a = data.next().unwrap();
    let b = data.next().unwrap();
    let c = data.next().unwrap();
    let downloading = vec![(a, 100), (b, 30), (c, 0)];
    let archive = archive_progress(data, &downloading);
    assert_eq!(archive.downloaded_len, 700);
    let saved = archive.chunk_data.unwrap();
    assert_eq!(saved.iter_count, 3);
    assert_eq!(
        saved.last_incomplete_chunks,
        vec![ChunkInfo { index: 2, range: ChunkRange::new(130, 199) }, ChunkInfo { index: 3, range: ChunkRange::new(200, 299) }]
    );
    assert_eq!(saved.remaining_len(), 700 + 70 + 100);
    assert_eq!(saved.checked_remaining_len(), Some(870));
}

#[test]
fn archive_requeues_a_chunk_held_in_memory_whole() {
    let mut data = ChunkData::new(100, 300);
    let a = data.next().unwrap();
    let downloading = vec![(a, 0)];
    let archive = archive_progress(data, &downloading);
    let saved = archive.chunk_data.unwrap();
    assert_eq!(saved.last_incomplete_chunks, vec![ChunkInfo { index: 1, range: ChunkRange::new(0, 99) }]);
    assert_eq!(saved.remaining_len(), 300);
}

#[test]
fn never_more_chunks_than_connections() {
    let mut m = manager(2, 10, 100);
    m.start_download();
    assert_eq!(m.downloading_chunks.len(), 2);
    for index in 1..=10 {
        m.on_chunk_end(index, ChunkOutcome::Ended(DownloadEndCause::Finished));
        assert!(m.downloading_chunks.len() <= 2);
    }
    assert_eq!(m.downloading_chunks.len(), 0);
}

#[test]
fn downloading_chunks_are_listed_once_each() {
    let mut m = manager(4, 100, 1000);
    m.start_download();
    let chunks = m.get_downloading_chunks();
    let mut indices: Vec<usize> = chunks.iter().map(|c| c.index).collect();
    indices.sort();
    assert_eq!(indices, vec![1, 2, 3, 4]);
    for c in &chunks {
        assert_eq!(m.downloading_chunks.get(&c.index), Some(c));
    }
}

#[test]
fn scheduler_starts_only_known_pending_tasks() {
    assert!(should_start(Some(TaskStatus::Pending)));
    assert!(!should_start(Some(TaskStatus::Downloading)));
    assert!(!should_start(Some(TaskStatus::Paused)));
    assert!(!should_start(None));
}
