use vstd::prelude::*;
use crate::downloader::chunk_info::ChunkInfo;
use crate::download::chunk_range::{
    all_remaining_ranges, is_remaining_range, lemma_chunk_count, lemma_cuts_leave, lemma_take_chunk_conserves,
    lemma_take_chunk_from, lemma_total_len_first, lemma_total_len_nonneg, lemma_total_len_prefix, ranges_from,
    take_chunk, total_len,
};
use crate::downloader::chunk_range::ChunkRange;

verus! {

/// The remaining ranges of a file, handed out chunk by chunk.
#[derive(Debug, Clone)]
pub struct RemainingChunks {
    chunk_size: usize,
    ranges: Vec<ChunkRange>,
}

impl View for RemainingChunks {
    type V = Seq<ChunkRange>;

    closed spec fn view(&self) -> Seq<ChunkRange> {
        self.ranges@
    }
}

impl RemainingChunks {
    /// The chunk size the ranges are cut in.
    pub closed spec fn chunk_len(&self) -> nat {
        self.chunk_size as nat
    }

    /// The chunk size is positive and every remaining range is a valid remaining range.
    pub open spec fn wf(&self) -> bool {
        &&& self.chunk_len() > 0
        &&& all_remaining_ranges(self@)
    }

    pub fn new(chunk_size: usize, file_size: u64) -> (r: Self)
        requires
            chunk_size > 0,
            file_size >= 1,
        ensures
            r.wf(),
            r.chunk_len() == chunk_size,
            r@ == seq![ChunkRange { start: 0, end: (file_size - 1) as u64 }],
            r@ == ranges_from(0, file_size as int),
            total_len(r@) == file_size,
    {
        let r = Self { chunk_size: chunk_size, ranges: vec![ChunkRange::from_len(0, file_size)] };
        assert(r.ranges@ =~= seq![ChunkRange { start: 0, end: (file_size - 1) as u64 }]);
        assert(r.ranges@.drop_last() =~= Seq::<ChunkRange>::empty());
        assert(total_len(r@.drop_last()) == 0);
        r
    }

    /// The remaining ranges, first to be handed out first.
    pub fn ranges(&self) -> (r: &Vec<ChunkRange>)
        ensures
            r@ == self@,
    {
        &self.ranges
    }

    pub fn take_range(&mut self) -> (r: Option<ChunkRange>)
        requires
            old(self).wf(),
        ensures
            final(self).wf(),
            final(self).chunk_len() == old(self).chunk_len(),
            (r, final(self)@) == take_chunk(old(self).chunk_len(), old(self)@),
        decreases old(self)@.len(),
    {
        let chunk_size = self.chunk_size as u64;
        if self.ranges.len() == 0 {
            return None;
        }
        let range = self.ranges[0];
        assert(is_remaining_range(self.ranges@[0]));
        let range_len = range.len();
        let len = if range_len == 0 {
            self.ranges.remove(0);
            return self.take_range();
        } else if range_len <= chunk_size {
            self.ranges.remove(0);
            assert(self.ranges@ =~= old(self).ranges@.drop_first());
            range_len
        } else {
            self.ranges.set(0, ChunkRange::new(range.start + chunk_size, range.end));
            chunk_size
        };
        Some(ChunkRange::from_len(range.start, len))
    }
}


/// The chunk bookkeeping of one download: how many chunks were handed out, and
/// the ranges not handed out yet.
#[derive(Debug, Clone)]
pub struct ChunkIteratorData {
    pub iter_count: usize,
    pub remaining: RemainingChunks,
}

impl ChunkIteratorData {
    /// The effect of one call of `next_chunk_range`, turning `self` into `after` and
    /// returning `r`: the next chunk of the remaining ranges, with the next index.
    pub open spec fn next_step(self, after: Self, r: Option<ChunkInfo>) -> bool {
        let (c, rest) = take_chunk(self.remaining.chunk_len(), self.remaining@);
        &&& after.remaining.wf()
        &&& after.remaining.chunk_len() == self.remaining.chunk_len()
        &&& after.remaining@ == rest
        &&& match c {
            Some(c) => {
                &&& r == Some(ChunkInfo { index: (self.iter_count + 1) as usize, range: c })
                &&& after.iter_count == self.iter_count + 1
            },
            None => {
                &&& r is None
                &&& after.iter_count == self.iter_count
            },
        }
    }

    /// Bytes still to download.
    pub fn remaining_len(&self) -> (n: u64)
        requires
            self.remaining.wf(),
            total_len(self.remaining@) <= u64::MAX,
        ensures
            n == total_len(self.remaining@),
    {
        let mut len: u64 = 0;
        let ranges = self.remaining.ranges();
        let ghost rs = self.remaining@;
        let mut i: usize = 0;
        while i < ranges.len()
            invariant
                ranges@ == rs,
                all_remaining_ranges(rs),
                0 <= i <= rs.len(),
                len == total_len(rs.take(i as int)),
                total_len(rs) <= u64::MAX,
            decreases rs.len() - i,
        {
            proof {
                assert(rs.take(i + 1).drop_last() =~= rs.take(i as int));
                assert(is_remaining_range(rs[i as int]));
                lemma_total_len_prefix(rs, i + 1);
            }
            len = len + ranges[i].len();
            i = i + 1;
        }
        assert(rs.take(rs.len() as int) =~= rs);
        len
    }

    /// The next chunk to download, if any.
    pub fn next_chunk_range(&mut self) -> (r: Option<ChunkInfo>)
        requires
            old(self).remaining.wf(),
            old(self).remaining@.len() > 0 ==> old(self).iter_count < usize::MAX,
        ensures
            old(self).next_step(*final(self), r),
            r is None <==> total_len(old(self).remaining@) == 0,
            r matches Some(c) ==> c.range.is_valid() && total_len(old(self).remaining@) == c.range.spec_len()
                + total_len(final(self).remaining@),
    {
        proof {
            lemma_take_chunk_conserves(self.remaining.chunk_len(), self.remaining@);
            lemma_total_len_nonneg(self.remaining@);
            if self.remaining@.len() > 0 {
                lemma_total_len_first(self.remaining@);
                lemma_total_len_nonneg(self.remaining@.drop_first());
            }
        }
        let range = self.remaining.take_range();
        if let Some(range) = range {
            self.iter_count += 1;
            Some(ChunkInfo { index: self.iter_count, range })
        } else {
            None
        }
    }
}

/// Hands out the chunks of one download, one call of `next` at a time.
pub struct ChunkIterator {
    pub data: ChunkIteratorData,
}

impl ChunkIterator {
    pub fn new(data: ChunkIteratorData) -> (r: Self)
        ensures
            r.data == data,
    {
        Self { data }
    }

    pub fn next(&mut self) -> (r: Option<ChunkInfo>)
        requires
            old(self).data.remaining.wf(),
            old(self).data.remaining@.len() > 0 ==> old(self).data.iter_count < usize::MAX,
        ensures
            old(self).data.next_step(final(self).data, r),
            r is None <==> total_len(old(self).data.remaining@) == 0,
            r matches Some(c) ==> c.range.is_valid() && total_len(old(self).data.remaining@) == c.range.spec_len()
                + total_len(final(self).data.remaining@),
    {
        self.data.next_chunk_range()
    }
}

/// Law: successive calls of `take_range` on a new `RemainingChunks` of a file of
/// `file_size` bytes cut the file in order, each byte once. `calls[k]` is the value
/// before call `k` (from 0) and `outs[k]` what that call returned. Call `j` hands
/// out a chunk exactly when `j` is below `file_size / chunk_size` rounded up, and
/// then from the first call that hands out none on, no call hands out any; chunk
/// `j` is the bytes from `j * chunk_size` up to the next multiple of `chunk_size`
/// or the end of the file; after `i` calls the ranges left are the bytes from
/// `i * chunk_size` to the end of the file, each range valid.
pub proof fn lemma_take_range_cuts_in_order(
    chunk_size: nat,
    file_size: nat,
    calls: Seq<RemainingChunks>,
    outs: Seq<Option<ChunkRange>>,
)
    requires
        chunk_size > 0,
        file_size <= u64::MAX,
        calls.len() == outs.len() + 1,
        calls[0]@ == ranges_from(0, file_size as int),
        forall|k: int| 0 <= k < calls.len() ==> (#[trigger] calls[k]).chunk_len() == chunk_size,
        forall|k: int|
            0 <= k < outs.len() ==> (outs[k], calls[k + 1]@) == #[trigger] take_chunk(calls[k].chunk_len(), calls[k]@),
    ensures
        forall|i: int|
            0 <= i < calls.len() ==> (#[trigger] calls[i])@ == ranges_from(i * chunk_size, file_size as int)
                && all_remaining_ranges(calls[i]@),
        forall|j: int| 0 <= j < outs.len() ==> ((#[trigger] outs[j]) is Some <==> j < (file_size + chunk_size - 1) / (chunk_size as int)),
        forall|j: int|
            0 <= j < outs.len() ==> (#[trigger] outs[j] matches Some(c) ==> {
                &&& c.start == j * chunk_size
                &&& c.end + 1 == if (j + 1) * chunk_size <= file_size {
                    (j + 1) * chunk_size
                } else {
                    file_size as int
                }
            }),
{
    let views = Seq::new(calls.len(), |k: int| calls[k]@);
    assert forall|k: int| 0 <= k < outs.len() implies (outs[k], views[k + 1]) == #[trigger] take_chunk(
        chunk_size,
        views[k],
    ) by {
        assert(calls[k].chunk_len() == chunk_size);
        assert(take_chunk(calls[k].chunk_len(), calls[k]@) == take_chunk(chunk_size, views[k]));
    }
    assert forall|i: int| 0 <= i < calls.len() implies (#[trigger] calls[i])@ == ranges_from(
        i * chunk_size,
        file_size as int,
    ) && all_remaining_ranges(calls[i]@) by {
        lemma_cuts_leave(chunk_size, file_size, views, outs, i as nat);
        assert(views[i] == calls[i]@);
    }
    assert forall|j: int| 0 <= j < outs.len() implies ((#[trigger] outs[j]) is Some <==> j < (file_size + chunk_size
        - 1) / (chunk_size as int)) && (outs[j] matches Some(c) ==> {
        &&& c.start == j * chunk_size
        &&& c.end + 1 == if (j + 1) * chunk_size <= file_size {
            (j + 1) * chunk_size
        } else {
            file_size as int
        }
    }) by {
        lemma_cuts_leave(chunk_size, file_size, views, outs, j as nat);
        lemma_take_chunk_from(chunk_size, file_size, j as nat);
        lemma_chunk_count(j, chunk_size as int, file_size as int);
        assert((outs[j], views[j + 1]) == take_chunk(chunk_size, views[j]));
    }
}


/// How many of the results hand out a chunk.
pub open spec fn handed_out(outs: Seq<Option<ChunkInfo>>) -> nat
    decreases outs.len(),
{
    if outs.len() == 0 {
        0
    } else {
        handed_out(outs.drop_last()) + if outs.last() is Some {
            1nat
        } else {
            0nat
        }
    }
}

/// Results that all hand out a chunk are counted in full; fewer never exceed them.
proof fn lemma_handed_out_all(outs: Seq<Option<ChunkInfo>>)
    ensures
        handed_out(outs) <= outs.len(),
        handed_out(outs) == outs.len() ==> forall|l: int| 0 <= l < outs.len() ==> (#[trigger] outs[l]) is Some,
    decreases outs.len(),
{
    if outs.len() > 0 {
        lemma_handed_out_all(outs.drop_last());
        if handed_out(outs) == outs.len() {
            assert forall|l: int| 0 <= l < outs.len() implies (#[trigger] outs[l]) is Some by {
                if l < outs.len() - 1 {
                    assert(outs[l] == outs.drop_last()[l]);
                }
            }
        }
    }
}

/// The state before call `i` of a sequence of `next_chunk_range` calls.
proof fn lemma_count_upto(calls: Seq<ChunkIteratorData>, outs: Seq<Option<ChunkInfo>>, i: nat)
    requires
        calls.len() == outs.len() + 1,
        calls[0].remaining.wf(),
        forall|k: int| 0 <= k < outs.len() ==> (#[trigger] calls[k]).next_step(calls[k + 1], outs[k]),
        i < calls.len(),
    ensures
        calls[i as int].remaining.wf(),
        calls[i as int].iter_count == calls[0].iter_count + handed_out(outs.take(i as int)),
        handed_out(outs.take(i as int)) < i ==> calls[i as int].remaining@.len() == 0,
    decreases i,
{
    if i == 0 {
        assert(outs.take(0) =~= Seq::<Option<ChunkInfo>>::empty());
    } else {
        let p = (i - 1) as nat;
        lemma_count_upto(calls, outs, p);
        lemma_handed_out_all(outs.take(p as int));
        assert(calls[p as int].next_step(calls[i as int], outs[p as int]));
        assert(outs.take(i as int).drop_last() =~= outs.take(p as int));
        assert(outs.take(i as int).last() == outs[p as int]);
    }
}

/// Law: `next_chunk_range` numbers the chunks it hands out in order and counts
/// them. `calls[k]` is the value before call `k` (from 0) and `outs[k]` what that
/// call returned. Call `j`, when it hands out a chunk, hands out chunk number
/// `calls[0].iter_count + j + 1`, and every call before it handed one out; once a
/// call hands out none, no later call does, and such a call leaves the count as
/// it was; after `i` calls the count is the count before the first call plus the
/// chunks handed out. From a count of 0, `k` calls that all hand out a chunk give
/// the chunks numbered 1 to `k` and leave the count at `k`.
pub proof fn lemma_next_chunk_range_counts(calls: Seq<ChunkIteratorData>, outs: Seq<Option<ChunkInfo>>)
    requires
        calls.len() == outs.len() + 1,
        calls[0].remaining.wf(),
        calls[0].iter_count + outs.len() <= usize::MAX,
        forall|k: int| 0 <= k < outs.len() ==> (#[trigger] calls[k]).next_step(calls[k + 1], outs[k]),
    ensures
        forall|i: int|
            0 <= i < calls.len() ==> (#[trigger] calls[i]).iter_count == calls[0].iter_count + handed_out(
                outs.take(i),
            ),
        forall|j: int|
            0 <= j < outs.len() ==> ((#[trigger] outs[j]) matches Some(c) ==> {
                &&& c.index == calls[0].iter_count + j + 1
                &&& forall|l: int| 0 <= l < j ==> (#[trigger] outs[l]) is Some
            }),
        forall|j: int| 0 <= j < outs.len() && (#[trigger] outs[j]) is None ==> calls[j + 1].iter_count == calls[j].iter_count,
        forall|j: int, l: int| 0 <= j < l < outs.len() && (#[trigger] outs[j]) is None ==> (#[trigger] outs[l]) is None,
{
    assert forall|i: int| 0 <= i < calls.len() implies (#[trigger] calls[i]).iter_count == calls[0].iter_count
        + handed_out(outs.take(i)) by {
        lemma_count_upto(calls, outs, i as nat);
    }
    assert forall|j: int| 0 <= j < outs.len() implies ((#[trigger] outs[j]) matches Some(c) ==> {
        &&& c.index == calls[0].iter_count + j + 1
        &&& forall|l: int| 0 <= l < j ==> (#[trigger] outs[l]) is Some
    }) by {
        lemma_count_upto(calls, outs, j as nat);
        lemma_handed_out_all(outs.take(j));
        assert(calls[j].next_step(calls[j + 1], outs[j]));
        if outs[j] is Some {
            assert(handed_out(outs.take(j)) == j);
            assert forall|l: int| 0 <= l < j implies (#[trigger] outs[l]) is Some by {
                assert(outs.take(j)[l] == outs[l]);
            }
        }
    }
    assert forall|j: int| 0 <= j < outs.len() && (#[trigger] outs[j]) is None implies calls[j + 1].iter_count
        == calls[j].iter_count by {
        assert(calls[j].next_step(calls[j + 1], outs[j]));
    }
    assert forall|j: int, l: int| 0 <= j < l < outs.len() && (#[trigger] outs[j]) is None implies (#[trigger] outs[l]) is None by {
        lemma_count_upto(calls, outs, l as nat);
        lemma_handed_out_all(outs.take(l));
        assert(calls[l].next_step(calls[l + 1], outs[l]));
        if handed_out(outs.take(l)) == l {
            assert(outs.take(l)[j] == outs[j]);
        }
    }
}

/// Law: `next_chunk_range` hands out the front of the first remaining range,
/// `chunk_size` bytes of it or the whole range when that is shorter, numbered one
/// past the chunks handed out so far, and the remaining ranges lose exactly those
/// bytes from their front; with nothing left, it hands out nothing and changes
/// nothing. `before` and `after` are the values before and after the call, `r`
/// its result.
pub proof fn lemma_next_chunk_range_takes_the_front(before: ChunkIteratorData, after: ChunkIteratorData, r: Option<ChunkInfo>)
    requires
        before.remaining.wf(),
        before.next_step(after, r),
    ensures
        before.remaining@.len() == 0 ==> {
            &&& r is None
            &&& after.remaining@ == before.remaining@
            &&& after.iter_count == before.iter_count
        },
        before.remaining@.len() > 0 ==> {
            let front = before.remaining@[0];
            let size = before.remaining.chunk_len();
            &&& r is Some
            &&& r->0.index == before.iter_count + 1
            &&& r->0.range.start == front.start
            &&& r->0.range.spec_len() == if front.spec_len() <= size {
                front.spec_len()
            } else {
                size as int
            }
            &&& after.iter_count == before.iter_count + 1
            &&& after.remaining@ == if front.spec_len() <= size {
                before.remaining@.drop_first()
            } else {
                before.remaining@.update(0, ChunkRange { start: (r->0.range.end + 1) as u64, end: front.end })
            }
        },
{
    if before.remaining@.len() > 0 {
        assert(is_remaining_range(before.remaining@[0]));
    }
}

} // verus!
