//! What a task keeps of its download when it is paused or canceled.

use vstd::prelude::*;
use crate::download::archiver::Archiver;
use crate::download::chunk_range::{ChunkData, ChunkInfo, ChunkRange, ranges_of, total_len};

verus! {

/// What is left of a downloading chunk once the first `written` bytes of its
/// range are in the file: nothing when all of it is written, otherwise the rest
/// of its range, same index.
pub open spec fn incomplete_part(chunk: ChunkInfo, written: u64) -> Option<ChunkInfo> {
    if written == chunk.range.spec_len() {
        None
    } else {
        Some(
            ChunkInfo {
                index: chunk.index,
                range: ChunkRange { start: (chunk.range.start + written) as u64, end: chunk.range.end },
            },
        )
    }
}

/// The incomplete parts of the downloading chunks, in order.
pub open spec fn incomplete_parts(chunks: Seq<(ChunkInfo, u64)>) -> Seq<ChunkInfo>
    decreases chunks.len(),
{
    if chunks.len() == 0 {
        Seq::empty()
    } else {
        let rest = incomplete_parts(chunks.drop_last());
        match incomplete_part(chunks.last().0, chunks.last().1) {
            Some(c) => rest.push(c),
            None => rest,
        }
    }
}

/// Bytes of the downloading chunks that are not written to the file.
pub open spec fn unwritten_len(chunks: Seq<(ChunkInfo, u64)>) -> int
    decreases chunks.len(),
{
    if chunks.len() == 0 {
        0
    } else {
        unwritten_len(chunks.drop_last()) + chunks.last().0.range.spec_len() - chunks.last().1
    }
}

/// Each downloading chunk has a valid range and at most its length written.
pub open spec fn downloading_valid(chunks: Seq<(ChunkInfo, u64)>) -> bool {
    forall|i: int|
        0 <= i < chunks.len() ==> {
            &&& (#[trigger] chunks[i]).0.range.is_valid()
            &&& chunks[i].1 <= chunks[i].0.range.spec_len()
        }
}

/// The archive of a stopped download: the bytes it still had to download before
/// the chunks in flight are counted, and its chunk data, where each chunk that was
/// downloading, paired with the count of bytes at the start of its range that are
/// written to the file, is queued again as interrupted with the part of its range
/// that is not written, unless all of it is written. A chunk whose bytes were only
/// received into memory counts as not written, and is queued again whole.
pub fn archive_progress(chunk_data: ChunkData, downloading: &Vec<(ChunkInfo, u64)>) -> (r: Archiver)
    requires
        chunk_data.remaining.wf(),
        chunk_data.incomplete_valid(),
        chunk_data.spec_remaining_len() <= u64::MAX,
        forall|i: int|
            0 <= i < downloading@.len() ==> {
                &&& (#[trigger] downloading@[i]).0.range.is_valid()
                &&& downloading@[i].0.range.start + downloading@[i].1 <= u64::MAX
            },
    ensures
        r.downloaded_len == chunk_data.spec_remaining_len(),
        r.chunk_data matches Some(d) && {
            &&& d.iter_count == chunk_data.iter_count
            &&& d.remaining == chunk_data.remaining
            &&& d.last_incomplete_chunks@ == chunk_data.last_incomplete_chunks@ + incomplete_parts(downloading@)
        },
{
    let downloaded_len = chunk_data.remaining_len();
    let mut chunk_data = chunk_data;
    let ghost start = chunk_data.last_incomplete_chunks@;
    let ghost orig = chunk_data;
    let mut i: usize = 0;
    while i < downloading.len()
        invariant
            0 <= i <= downloading@.len(),
            forall|k: int|
                0 <= k < downloading@.len() ==> {
                    &&& (#[trigger] downloading@[k]).0.range.is_valid()
                    &&& downloading@[k].0.range.start + downloading@[k].1 <= u64::MAX
                },
            chunk_data.last_incomplete_chunks@ == start + incomplete_parts(downloading@.take(i as int)),
            chunk_data.remaining == orig.remaining,
            chunk_data.iter_count == orig.iter_count,
        decreases downloading@.len() - i,
    {
        let (chunk, written) = downloading[i];
        proof {
            assert(downloading@.take(i + 1).drop_last() =~= downloading@.take(i as int));
            assert(downloading@.take(i + 1).last() == downloading@[i as int]);
        }
        if written != chunk.range.len() {
            let start_at = chunk.range.start + written;
            let end = chunk.range.end;
            chunk_data.last_incomplete_chunks.push(ChunkInfo { index: chunk.index, range: ChunkRange::new(start_at, end) });
        }
        i = i + 1;
    }
    assert(downloading@.take(downloading@.len() as int) =~= downloading@);
    Archiver { downloaded_len, chunk_data: Some(chunk_data) }
}

/// Law: pausing loses no byte and adds none. When every downloading chunk has at
/// most its length written, the archived chunk data still has to download exactly
/// what it had before plus the bytes of the downloading chunks that are not in the
/// file, and every range it queues again is valid.
pub proof fn lemma_archive_keeps_unwritten_bytes(before: Seq<ChunkInfo>, downloading: Seq<(ChunkInfo, u64)>)
    requires
        downloading_valid(downloading),
    ensures
        total_len(ranges_of(before + incomplete_parts(downloading))) == total_len(ranges_of(before)) + unwritten_len(
            downloading,
        ),
        forall|i: int|
            0 <= i < incomplete_parts(downloading).len() ==> (#[trigger] incomplete_parts(downloading)[i]).range.is_valid(),
    decreases downloading.len(),
{
    if downloading.len() > 0 {
        let d = downloading.drop_last();
        assert forall|i: int| 0 <= i < d.len() implies {
            &&& (#[trigger] d[i]).0.range.is_valid()
            &&& d[i].1 <= d[i].0.range.spec_len()
        } by {
            assert(d[i] == downloading[i]);
        }
        lemma_archive_keeps_unwritten_bytes(before, d);
        let (c, n) = downloading.last();
        assert(downloading.last() == downloading[downloading.len() - 1]);
        match incomplete_part(c, n) {
            Some(p) => {
                let prev = before + incomplete_parts(d);
                assert(before + incomplete_parts(downloading) =~= prev.push(p));
                assert(ranges_of(prev.push(p)).drop_last() =~= ranges_of(prev));
                assert(ranges_of(prev.push(p)).last() == p.range);
            },
            None => {
                assert(before + incomplete_parts(downloading) =~= before + incomplete_parts(d));
            },
        }
    }
}


/// `part` is what a chunk still needs once the first `written` bytes of its
/// range are in the file: the same index, and the bytes from after the written
/// ones to the end of its range.
pub open spec fn is_unwritten_tail(part: ChunkInfo, chunk: ChunkInfo, written: u64) -> bool {
    &&& part.index == chunk.index
    &&& part.range.start == chunk.range.start + written
    &&& part.range.end == chunk.range.end
}

/// Law: a downloading chunk is queued again as exactly the part of its range not
/// yet in the file: nothing when all of it is written; otherwise the same index,
/// its range's end, and as many bytes as are not written, so that the part
/// starts right after the written bytes.
pub proof fn lemma_requeued_part_is_unwritten(chunk: ChunkInfo, written: u64)
    requires
        chunk.range.is_valid(),
        written <= chunk.range.spec_len(),
    ensures
        incomplete_part(chunk, written) is None <==> written == chunk.range.spec_len(),
        incomplete_part(chunk, written) matches Some(p) ==> {
            &&& p.index == chunk.index
            &&& p.range.end == chunk.range.end
            &&& p.range.spec_len() == chunk.range.spec_len() - written
            &&& is_unwritten_tail(p, chunk, written)
            &&& p.range.is_valid()
        },
{
}

/// The downloading chunk whose unwritten tail is queued part `j`.
proof fn part_source(downloading: Seq<(ChunkInfo, u64)>, j: int) -> (i: int)
    requires
        downloading_valid(downloading),
        0 <= j < incomplete_parts(downloading).len(),
    ensures
        0 <= i < downloading.len(),
        downloading[i].1 < downloading[i].0.range.spec_len(),
        is_unwritten_tail(incomplete_parts(downloading)[j], downloading[i].0, downloading[i].1),
    decreases downloading.len(),
{
    let d = downloading.drop_last();
    let n = downloading.len() - 1;
    assert(downloading.last() == downloading[n]);
    assert(downloading[n].0.range.is_valid() && downloading[n].1 <= downloading[n].0.range.spec_len());
    assert forall|k: int| 0 <= k < d.len() implies {
        &&& (#[trigger] d[k]).0.range.is_valid()
        &&& d[k].1 <= d[k].0.range.spec_len()
    } by {
        assert(d[k] == downloading[k]);
    }
    if j < incomplete_parts(d).len() {
        let i = part_source(d, j);
        assert(d[i] == downloading[i]);
        i
    } else {
        n
    }
}

/// Where the unwritten tail of downloading chunk `i` is queued.
proof fn tail_position(downloading: Seq<(ChunkInfo, u64)>, i: int) -> (j: int)
    requires
        downloading_valid(downloading),
        0 <= i < downloading.len(),
        downloading[i].1 < downloading[i].0.range.spec_len(),
    ensures
        0 <= j < incomplete_parts(downloading).len(),
        is_unwritten_tail(incomplete_parts(downloading)[j], downloading[i].0, downloading[i].1),
    decreases downloading.len(),
{
    let d = downloading.drop_last();
    let n = downloading.len() - 1;
    assert(downloading.last() == downloading[n]);
    assert forall|k: int| 0 <= k < d.len() implies {
        &&& (#[trigger] d[k]).0.range.is_valid()
        &&& d[k].1 <= d[k].0.range.spec_len()
    } by {
        assert(d[k] == downloading[k]);
    }
    if i < n {
        assert(d[i] == downloading[i]);
        tail_position(d, i)
    } else {
        assert(downloading[n].0.range.is_valid());
        incomplete_parts(d).len() as int
    }
}

/// Queued part `j` is the unwritten tail of a downloading chunk that has bytes
/// left to write.
pub open spec fn is_tail_of_some(parts: Seq<ChunkInfo>, j: int, downloading: Seq<(ChunkInfo, u64)>) -> bool {
    exists|i: int|
        0 <= i < downloading.len() && (#[trigger] downloading[i]).1 < downloading[i].0.range.spec_len()
            && is_unwritten_tail(parts[j], downloading[i].0, downloading[i].1)
}

/// The unwritten tail of downloading chunk `i` is among the queued parts.
pub open spec fn tail_is_queued(parts: Seq<ChunkInfo>, downloading: Seq<(ChunkInfo, u64)>, i: int) -> bool {
    exists|j: int| 0 <= j < parts.len() && is_unwritten_tail(#[trigger] parts[j], downloading[i].0, downloading[i].1)
}

/// Law: archiving a stopped download queues again, for each downloading chunk
/// that is not all written, the unwritten tail of its range, and nothing else:
/// each queued part is the unwritten tail of a downloading chunk with bytes left
/// to write, and each such chunk has its tail queued.
pub proof fn lemma_archive_queues_unwritten_tails(downloading: Seq<(ChunkInfo, u64)>)
    requires
        downloading_valid(downloading),
    ensures
        forall|j: int|
            0 <= j < incomplete_parts(downloading).len() ==> #[trigger] is_tail_of_some(
                incomplete_parts(downloading),
                j,
                downloading,
            ),
        forall|i: int|
            0 <= i < downloading.len() && downloading[i].1 < downloading[i].0.range.spec_len()
                ==> #[trigger] tail_is_queued(incomplete_parts(downloading), downloading, i),
{
    assert forall|j: int| 0 <= j < incomplete_parts(downloading).len() implies #[trigger] is_tail_of_some(
        incomplete_parts(downloading),
        j,
        downloading,
    ) by {
        let i = part_source(downloading, j);
        assert(downloading[i].1 < downloading[i].0.range.spec_len());
    }
    assert forall|i: int| 0 <= i < downloading.len() && downloading[i].1 < downloading[i].0.range.spec_len() implies #[trigger] tail_is_queued(
        incomplete_parts(downloading),
        downloading,
        i,
    ) by {
        let j = tail_position(downloading, i);
        assert(is_unwritten_tail(incomplete_parts(downloading)[j], downloading[i].0, downloading[i].1));
    }
}

} // verus!
