//! The decisions of a chunk download that resumes where it stopped: what to
//! request, and whether to retry or give up after a failure.

use vstd::prelude::*;
use crate::downloader::chunk_range::ChunkRange;

verus! {

/// The retry count after a failed request or stream, or `None` when the chunk
/// download gives up: after more than `max_retry_count` failures in a row.
pub open spec fn retry_after_failure(retry_count: u8, max_retry_count: u8) -> Option<u8> {
    if retry_count + 1 > max_retry_count {
        None
    } else {
        Some((retry_count + 1) as u8)
    }
}

/// A request or the stream of a chunk failed once more: count it, and give up
/// after more than `max_retry_count` failures in a row.
pub fn note_failure(retry_count: u8, max_retry_count: u8) -> (r: Option<u8>)
    requires
        retry_count < u8::MAX,
    ensures
        r == retry_after_failure(retry_count, max_retry_count),
        r matches Some(n) ==> n == retry_count + 1 && n <= max_retry_count,
        r is None <==> retry_count + 1 > max_retry_count,
{
    let next = retry_count + 1;
    if next > max_retry_count {
        None
    } else {
        Some(next)
    }
}

/// The retry count after `failures` failures in a row, starting from 0, or
/// `None` once the download gave up.
pub open spec fn retries_after(failures: nat, max_retry_count: u8) -> Option<u8>
    decreases failures,
{
    if failures == 0 {
        Some(0)
    } else {
        match retries_after((failures - 1) as nat, max_retry_count) {
            Some(count) => retry_after_failure(count, max_retry_count),
            None => None,
        }
    }
}

/// Law: a chunk download is retried `max_retry_count` times. After `k` failures in
/// a row it still retries while `k <= max_retry_count`, and gives up at failure
/// `max_retry_count + 1`.
pub proof fn lemma_retries_allowed(max_retry_count: u8, failures: nat)
    ensures
        failures <= max_retry_count ==> retries_after(failures, max_retry_count) == Some(failures as u8),
        failures > max_retry_count ==> retries_after(failures, max_retry_count) is None,
    decreases failures,
{
    if failures > 0 {
        lemma_retries_allowed(max_retry_count, (failures - 1) as nat);
    }
}

/// What happened while downloading a chunk.
#[derive(Debug, Clone, Copy, PartialEq, Eq, Structural)]
pub enum ChunkEvent {
    /// The request could not be sent or got no reply.
    RequestFailed,
    /// The request got a reply, whose body is read next.
    Replied,
    /// This many more bytes of the body arrived.
    Received(u64),
    /// Reading the body failed.
    StreamFailed,
    /// The body ended.
    StreamEnded,
}

/// What a chunk download does next.
#[derive(Debug, Clone, Copy, PartialEq, Eq, Structural)]
pub enum ChunkAction {
    /// Request the part of the chunk not received yet (`ChunkDownload::request_range`).
    Request,
    /// Read on in the reply's body.
    ReadBody,
    /// The chunk is complete: write what was received.
    Finish,
    /// Give up with the request's error.
    GiveUp,
    /// Write what was received so far, then give up with the body's error.
    WriteAndGiveUp,
}

/// Where a chunk download stands: failures in a row and bytes received.
#[derive(Debug, Clone, Copy, PartialEq, Eq, Structural)]
pub struct ChunkDownload {
    pub retry_count: u8,
    pub received: u64,
}

/// The state and action after `event`, with at most `max_retry_count` failures
/// in a row retried. A reply resets the count of failures; a failure of the
/// request or of the body is counted, and the part not received is requested
/// again until the retries run out; when they run out on a failed body, what was
/// received is written first.
pub open spec fn chunk_step(s: ChunkDownload, max_retry_count: u8, event: ChunkEvent) -> (ChunkDownload, ChunkAction) {
    match event {
        ChunkEvent::RequestFailed => match retry_after_failure(s.retry_count, max_retry_count) {
            Some(n) => (ChunkDownload { retry_count: n, ..s }, ChunkAction::Request),
            None => (ChunkDownload { retry_count: (s.retry_count + 1) as u8, ..s }, ChunkAction::GiveUp),
        },
        ChunkEvent::Replied => (ChunkDownload { retry_count: 0, ..s }, ChunkAction::ReadBody),
        ChunkEvent::Received(n) => (ChunkDownload { received: (s.received + n) as u64, ..s }, ChunkAction::ReadBody),
        ChunkEvent::StreamFailed => match retry_after_failure(s.retry_count, max_retry_count) {
            Some(n) => (ChunkDownload { retry_count: n, ..s }, ChunkAction::Request),
            None => (ChunkDownload { retry_count: (s.retry_count + 1) as u8, ..s }, ChunkAction::WriteAndGiveUp),
        },
        ChunkEvent::StreamEnded => (s, ChunkAction::Finish),
    }
}

impl ChunkDownload {
    /// A chunk download that has neither failed nor received anything.
    pub fn new() -> (r: Self)
        ensures
            r.retry_count == 0,
            r.received == 0,
    {
        ChunkDownload { retry_count: 0, received: 0 }
    }

    /// The range to request for chunk `range`: from after the bytes received to
    /// the chunk's end.
    pub fn request_range(&self, range: ChunkRange) -> (r: ChunkRange)
        requires
            range.start + self.received <= u64::MAX,
        ensures
            r == (ChunkRange { start: (range.start + self.received) as u64, end: range.end }),
    {
        ChunkRange::new(range.start + self.received, range.end)
    }

    /// Takes in what happened and says what to do next.
    pub fn step(&mut self, max_retry_count: u8, event: ChunkEvent) -> (r: ChunkAction)
        requires
            event == ChunkEvent::RequestFailed || event == ChunkEvent::StreamFailed ==> old(self).retry_count
                < u8::MAX,
            event matches ChunkEvent::Received(n) ==> old(self).received + n <= u64::MAX,
        ensures
            (*final(self), r) == chunk_step(*old(self), max_retry_count, event),
    {
        match event {
            ChunkEvent::RequestFailed => {
                let next = note_failure(self.retry_count, max_retry_count);
                self.retry_count = self.retry_count + 1;
                match next {
                    Some(_) => ChunkAction::Request,
                    None => ChunkAction::GiveUp,
                }
            },
            ChunkEvent::Replied => {
                self.retry_count = 0;
                ChunkAction::ReadBody
            },
            ChunkEvent::Received(n) => {
                self.received = self.received + n;
                ChunkAction::ReadBody
            },
            ChunkEvent::StreamFailed => {
                let next = note_failure(self.retry_count, max_retry_count);
                self.retry_count = self.retry_count + 1;
                match next {
                    Some(_) => ChunkAction::Request,
                    None => ChunkAction::WriteAndGiveUp,
                }
            },
            ChunkEvent::StreamEnded => ChunkAction::Finish,
        }
    }
}

/// Law: a chunk download resumes where it stopped and loses no received byte.
/// Whatever happens, the bytes received never decrease and grow by exactly what
/// arrives, and every request asks for the chunk from after the bytes received
/// to its end; a reply clears the failures counted before it.
pub proof fn lemma_chunk_step_keeps_received(s: ChunkDownload, max_retry_count: u8, event: ChunkEvent)
    ensures
        ({
            let (t, a) = chunk_step(s, max_retry_count, event);
            &&& event matches ChunkEvent::Received(n) ==> t.received == s.received + n || s.received + n > u64::MAX
            &&& !(event is Received) ==> t.received == s.received
            &&& event == ChunkEvent::Replied ==> t.retry_count == 0
            &&& (a == ChunkAction::GiveUp || a == ChunkAction::WriteAndGiveUp) ==> s.retry_count + 1 > max_retry_count
            &&& a == ChunkAction::Request ==> t.retry_count <= max_retry_count
        }),
{
}

/// Law: what a chunk download does after each event. A failed request or body
/// with retries left (at most `max_retry_count` failures in a row so far,
/// counting this one) is requested again, from after the bytes received, with
/// the failure counted; once the retries run out a failed request gives up, and a
/// failed body writes what was received, then gives up. A reply clears the count
/// and its body is read; arriving bytes are added to those received and reading
/// goes on; only the end of the body completes the chunk, changing nothing. No
/// event but arriving bytes changes the bytes received.
pub proof fn lemma_chunk_step_decides(s: ChunkDownload, max_retry_count: u8, event: ChunkEvent)
    requires
        event == ChunkEvent::RequestFailed || event == ChunkEvent::StreamFailed ==> s.retry_count < u8::MAX,
        event matches ChunkEvent::Received(n) ==> s.received + n <= u64::MAX,
    ensures
        ({
            let (t, a) = chunk_step(s, max_retry_count, event);
            &&& (a == ChunkAction::Finish <==> event == ChunkEvent::StreamEnded)
            &&& event == ChunkEvent::StreamEnded ==> t == s
            &&& (a == ChunkAction::ReadBody <==> (event == ChunkEvent::Replied || event is Received))
            &&& event == ChunkEvent::Replied ==> t.retry_count == 0 && t.received == s.received
            &&& event matches ChunkEvent::Received(n) ==> t.received == s.received + n && t.retry_count
                == s.retry_count
            &&& (event == ChunkEvent::RequestFailed || event == ChunkEvent::StreamFailed) ==> {
                &&& t.retry_count == s.retry_count + 1
                &&& t.received == s.received
                &&& (s.retry_count + 1 <= max_retry_count <==> a == ChunkAction::Request)
            }
            &&& event == ChunkEvent::RequestFailed && s.retry_count + 1 > max_retry_count ==> a == ChunkAction::GiveUp
            &&& event == ChunkEvent::StreamFailed && s.retry_count + 1 > max_retry_count ==> a
                == ChunkAction::WriteAndGiveUp
        }),
{
}

} // verus!
