//! The state of one download task and the decisions of its download loop.

use vstd::prelude::*;
use crate::download::uuid_text::new_uuid;

verus! {

/// Where a download task stands.
#[derive(Clone, Copy, Debug, PartialEq, Eq, Structural)]
pub enum TaskStatus {
    Pending,
    Downloading,
    Paused,
    Completed,
    Failed,
    Canceled,
}

/// Everything known of one download task.
#[derive(Clone)]
pub struct DownloadTaskState {
    pub id: uuid::Uuid,
    pub url: String,
    pub file_path: String,
    pub file_size: u64,
    pub downloaded: u64,
    pub status: TaskStatus,
    pub chunk_size: u64,
    pub retry_times: usize,
}

/// What the download loop of a task does next.
#[derive(Clone, Copy, Debug, PartialEq, Eq, Structural)]
pub enum TaskStep {
    /// Download the bytes `start..=end` of the file.
    FetchChunk { start: u64, end: u64 },
    /// The loop ends with this status (`Completed`, `Paused` or `Canceled`).
    Stop(TaskStatus),
    /// The task was marked failed: the loop ends with an error.
    Fail,
}

/// Size of the buffer that collects received bytes before they are written.
pub const CHUNK_BUFFER_SIZE: usize = 5242880;

/// The download loop's next step for a task in state `s`: the file is complete
/// once `downloaded` reaches `file_size`; otherwise a paused, canceled or failed
/// task stops, and any other fetches the next chunk, which starts where the
/// downloaded bytes end and is at most `chunk_size` bytes long.
pub open spec fn spec_next_step(s: DownloadTaskState) -> TaskStep {
    if s.downloaded >= s.file_size {
        TaskStep::Stop(TaskStatus::Completed)
    } else {
        match s.status {
            TaskStatus::Paused => TaskStep::Stop(TaskStatus::Paused),
            TaskStatus::Canceled => TaskStep::Stop(TaskStatus::Canceled),
            TaskStatus::Failed => TaskStep::Fail,
            _ => TaskStep::FetchChunk {
                start: s.downloaded,
                end: (if s.downloaded + s.chunk_size <= s.file_size {
                    s.downloaded + s.chunk_size
                } else {
                    s.file_size as int
                } - 1) as u64,
            },
        }
    }
}

/// `s` with its status set.
pub open spec fn with_status(s: DownloadTaskState, status: TaskStatus) -> DownloadTaskState {
    DownloadTaskState { status, ..s }
}

/// The status `pause` leaves: only a downloading task becomes paused.
pub open spec fn paused_status(status: TaskStatus) -> TaskStatus {
    if status == TaskStatus::Downloading {
        TaskStatus::Paused
    } else {
        status
    }
}

/// The status a task is left with once its download loop returned `outcome`
/// (`None` when the loop ended with an error).
pub open spec fn status_after(status: TaskStatus, outcome: Option<TaskStatus>) -> TaskStatus {
    match outcome {
        Some(TaskStatus::Completed) => TaskStatus::Completed,
        Some(TaskStatus::Canceled) => TaskStatus::Canceled,
        None => TaskStatus::Failed,
        Some(_) => status,
    }
}

impl DownloadTaskState {
    /// Where `next_step` fetches a chunk (the file is not complete and the task is
    /// not paused, canceled or failed), the chunk's end can be computed without
    /// overflow.
    pub open spec fn can_step(self) -> bool {
        (self.downloaded < self.file_size && self.status != TaskStatus::Paused && self.status
            != TaskStatus::Canceled && self.status != TaskStatus::Failed) ==> self.downloaded + self.chunk_size
            <= u64::MAX && self.downloaded + self.chunk_size >= 1
    }

    /// Whether the file's size is unknown, so that it must be asked for before
    /// the download starts.
    pub fn needs_size_query(&self) -> (r: bool)
        ensures
            r == (self.file_size == 0),
    {
        self.file_size == 0
    }

    /// The other fields than `status` are those of `other`.
    pub open spec fn same_but_status(self, other: Self) -> bool {
        with_status(self, other.status) == other
    }

    /// A new task, pending, with a fresh random id and nothing downloaded.
    pub fn new(url: String, file_path: String, chunk_size: u64, retry_times: usize) -> (r: Self)
        ensures
            r.url == url,
            r.file_path == file_path,
            r.chunk_size == chunk_size,
            r.retry_times == retry_times,
            r.file_size == 0,
            r.downloaded == 0,
            r.status == TaskStatus::Pending,
    {
        DownloadTaskState {
            id: new_uuid(),
            chunk_size,
            retry_times,
            file_path,
            file_size: 0,
            downloaded: 0,
            url,
            status: TaskStatus::Pending,
        }
    }

    /// Pausing only stops a task that is downloading.
    pub fn pause(&mut self)
        ensures
            final(self).status == paused_status(old(self).status),
            old(self).same_but_status(*final(self)),
    {
        if self.status == TaskStatus::Downloading {
            self.status = TaskStatus::Paused;
        }
    }

    /// Canceling stops a task whatever its status.
    pub fn cancel(&mut self)
        ensures
            final(self).status == TaskStatus::Canceled,
            old(self).same_but_status(*final(self)),
    {
        self.status = TaskStatus::Canceled;
    }

    /// The scheduler starts only pending tasks.
    pub fn is_pending(&self) -> (r: bool)
        ensures
            r == (self.status == TaskStatus::Pending),
    {
        self.status == TaskStatus::Pending
    }

    /// The download loop starts: the file size is taken from `fetched_size` when
    /// it was not known yet, and the task is downloading.
    pub fn begin(&mut self, fetched_size: Option<u64>)
        ensures
            *final(self) == (DownloadTaskState {
                status: TaskStatus::Downloading,
                file_size: if old(self).file_size == 0 && fetched_size is Some {
                    fetched_size->0
                } else {
                    old(self).file_size
                },
                ..*old(self)
            }),
    {
        if self.file_size == 0 {
            if let Some(size) = fetched_size {
                self.file_size = size;
            }
        }
        self.status = TaskStatus::Downloading;
    }

    /// The next step of the download loop.
    pub fn next_step(&self) -> (r: TaskStep)
        requires
            self.can_step(),
        ensures
            r == spec_next_step(*self),
    {
        let start = self.downloaded;
        if !(start < self.file_size) {
            return TaskStep::Stop(TaskStatus::Completed);
        }
        match self.status {
            TaskStatus::Paused => TaskStep::Stop(TaskStatus::Paused),
            TaskStatus::Canceled => TaskStep::Stop(TaskStatus::Canceled),
            TaskStatus::Failed => TaskStep::Fail,
            _ => {
                let sum = start + self.chunk_size;
                let end = (if sum < self.file_size { sum } else { self.file_size }) - 1;
                TaskStep::FetchChunk { start, end }
            },
        }
    }

    /// A chunk download delivered `bytes` more bytes.
    pub fn record_chunk(&mut self, bytes: u64)
        requires
            old(self).downloaded + bytes <= u64::MAX,
        ensures
            final(self).downloaded == old(self).downloaded + bytes,
            *final(self) == (DownloadTaskState { downloaded: final(self).downloaded, ..*old(self) }),
    {
        self.downloaded = self.downloaded + bytes;
    }

    /// A chunk failed for good: the task fails.
    pub fn fail(&mut self)
        ensures
            final(self).status == TaskStatus::Failed,
            old(self).same_but_status(*final(self)),
    {
        self.status = TaskStatus::Failed;
    }

    /// A chunk download stops early once the task was paused or canceled.
    pub fn chunk_interrupted(&self) -> (r: bool)
        ensures
            r == (self.status == TaskStatus::Paused || self.status == TaskStatus::Canceled),
    {
        match self.status {
            TaskStatus::Paused | TaskStatus::Canceled => true,
            _ => false,
        }
    }

    /// Records how the download loop of the task ended (`None`: with an error).
    pub fn apply_outcome(&mut self, outcome: Option<TaskStatus>)
        ensures
            final(self).status == status_after(old(self).status, outcome),
            old(self).same_but_status(*final(self)),
    {
        match outcome {
            Some(TaskStatus::Completed) => self.status = TaskStatus::Completed,
            Some(TaskStatus::Canceled) => self.status = TaskStatus::Canceled,
            None => self.status = TaskStatus::Failed,
            Some(_) => {},
        }
    }
}

/// The scheduler's decision on a task id it received: start the task only when
/// it is known (`status` is its status, `None` when no task has that id) and
/// still pending; otherwise skip it and give its permit back.
pub fn should_start(status: Option<TaskStatus>) -> (r: bool)
    ensures
        r == (status == Some(TaskStatus::Pending)),
{
    match status {
        Some(TaskStatus::Pending) => true,
        _ => false,
    }
}

/// A response to a chunk request carries the chunk when its status is
/// `206 Partial Content` or any other success status (`200..=299`).
pub fn accepts_chunk_response(status_code: u16) -> (r: bool)
    ensures
        r == (status_code == 206 || 200 <= status_code <= 299),
{
    status_code == 206 || (200 <= status_code && status_code <= 299)
}

/// The buffer of received bytes is written out once it holds `CHUNK_BUFFER_SIZE` bytes.
pub fn buffer_is_full(buffer_len: usize) -> (r: bool)
    ensures
        r == (buffer_len >= CHUNK_BUFFER_SIZE),
{
    buffer_len >= CHUNK_BUFFER_SIZE
}

/// After `attempts` failed attempts at a chunk, retrying stops once `retry_times`
/// attempts were made.
pub fn retry_exhausted(attempts: usize, retry_times: usize) -> (r: bool)
    ensures
        r == (attempts >= retry_times),
{
    attempts >= retry_times
}

/// Law: a canceled task stops before fetching another chunk. Whatever state the
/// task was in, once canceled its download loop ends with `Canceled`, unless the
/// file is already complete.
pub proof fn lemma_cancel_stops_download(s: DownloadTaskState)
    ensures
        spec_next_step(with_status(s, TaskStatus::Canceled)) == if s.downloaded >= s.file_size {
            TaskStep::Stop(TaskStatus::Completed)
        } else {
            TaskStep::Stop(TaskStatus::Canceled)
        },
{
}

/// Law: pausing a downloading task makes its loop stop with `Paused` before the
/// next chunk, unless the file is complete; pausing a task that is not
/// downloading changes nothing.
pub proof fn lemma_pause_stops_download(s: DownloadTaskState)
    ensures
        s.status == TaskStatus::Downloading ==> spec_next_step(with_status(s, paused_status(s.status)))
            == if s.downloaded >= s.file_size {
            TaskStep::Stop(TaskStatus::Completed)
        } else {
            TaskStep::Stop(TaskStatus::Paused)
        },
        s.status != TaskStatus::Downloading ==> with_status(s, paused_status(s.status)) == s,
{
}

/// Law: the chunks a downloading task requests tile the file. Each requested
/// chunk starts right where the downloaded bytes end, is at most `chunk_size`
/// bytes long, and ends inside the file; once that chunk is recorded, the next
/// request starts right after it.
pub proof fn lemma_requests_follow_progress(s: DownloadTaskState)
    requires
        s.can_step(),
        s.chunk_size > 0,
        s.status == TaskStatus::Downloading || s.status == TaskStatus::Pending,
        s.downloaded < s.file_size,
    ensures
        spec_next_step(s) matches TaskStep::FetchChunk { start, end } && {
            &&& start == s.downloaded
            &&& start <= end < s.file_size
            &&& end - start + 1 <= s.chunk_size
            &&& (end + 1 < s.file_size ==> end - start + 1 == s.chunk_size)
            &&& (spec_next_step(DownloadTaskState { downloaded: (end + 1) as u64, ..s }) matches TaskStep::FetchChunk {
                start: next_start,
                end: _,
            } ==> next_start == end + 1)
        },
{
}

/// Law: how a task's download loop ended sets its status. A loop that ended
/// with an error leaves the task failed, whatever its status was; a completed or
/// canceled loop leaves it completed or canceled; a loop that ended paused, or
/// with any other status, leaves the status as it was.
pub proof fn lemma_outcome_sets_status(status: TaskStatus, outcome: Option<TaskStatus>)
    ensures
        outcome is None ==> status_after(status, outcome) == TaskStatus::Failed,
        outcome == Some(TaskStatus::Completed) ==> status_after(status, outcome) == TaskStatus::Completed,
        outcome == Some(TaskStatus::Canceled) ==> status_after(status, outcome) == TaskStatus::Canceled,
        outcome is Some && outcome != Some(TaskStatus::Completed) && outcome != Some(TaskStatus::Canceled)
            ==> status_after(status, outcome) == status,
{
}

/// Law: the next step of the download loop. A complete file stops the loop as
/// completed, whatever the status; otherwise a paused or canceled task stops
/// with that status, a failed one fails, and any other task fetches the bytes
/// from the first one not downloaded, `chunk_size` of them or up to the end of
/// the file when fewer are left.
pub proof fn lemma_next_step_decides(s: DownloadTaskState)
    ensures
        s.downloaded >= s.file_size ==> spec_next_step(s) == TaskStep::Stop(TaskStatus::Completed),
        s.downloaded < s.file_size && s.status == TaskStatus::Paused ==> spec_next_step(s) == TaskStep::Stop(
            TaskStatus::Paused,
        ),
        s.downloaded < s.file_size && s.status == TaskStatus::Canceled ==> spec_next_step(s) == TaskStep::Stop(
            TaskStatus::Canceled,
        ),
        s.downloaded < s.file_size && s.status == TaskStatus::Failed ==> spec_next_step(s) == TaskStep::Fail,
        s.downloaded < s.file_size && (s.status == TaskStatus::Pending || s.status == TaskStatus::Downloading
            || s.status == TaskStatus::Completed) && s.downloaded + s.chunk_size >= 1 ==> {
            &&& spec_next_step(s) is FetchChunk
            &&& spec_next_step(s)->start == s.downloaded
            &&& spec_next_step(s)->end + 1 == if s.file_size - s.downloaded < s.chunk_size {
                s.file_size as int
            } else {
                s.downloaded + s.chunk_size
            }
        },
{
}

} // verus!
