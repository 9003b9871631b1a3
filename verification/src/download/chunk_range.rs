use vstd::prelude::*;

verus! {

/// The `Range` request header of the `headers` crate, carried as an opaque value.
#[verifier::external_type_specification]
#[verifier::external_body]
pub struct ExRange(headers::Range);

/// The `Range` header that `headers::Range::bytes` builds for the inclusive byte
/// range `start..=end`, whose value is `bytes=<start>-<end>`.
pub uninterp spec fn bytes_range_header(start: u64, end: u64) -> headers::Range;

/// Calls `headers::Range::bytes` with the bounds `Included(start)` and
/// `Included(end)`. Its source builds the header from those two bounds and
/// returns `Ok` for every pair of included bounds; the contract says so, and names
/// the header it returns.
#[verifier::external_body]
pub(crate) fn range_bytes(start: u64, end: u64) -> (r: Option<headers::Range>)
    ensures
        r == Some(bytes_range_header(start, end)),
{
    match headers::Range::bytes(start..=end) {
        Ok(range) => Some(range),
        Err(_) => None,
    }
}

/// One chunk handed out for downloading: its sequence number and byte range.
#[derive(Debug, Clone, Copy, PartialEq, Eq, Structural)]
pub struct ChunkInfo {
    pub index: usize,
    pub range: ChunkRange,
}

/// An inclusive byte range `start..=end` of the file.
#[derive(Debug, Clone, Copy, PartialEq, Eq, Structural)]
pub struct ChunkRange {
    pub start: u64,
    pub end: u64,
}

impl ChunkRange {
    /// Number of bytes in `start..=end`.
    pub open spec fn spec_len(self) -> int {
        self.end - self.start + 1
    }

    /// `len` can be computed without overflow: the range is non-empty and is not
    /// the whole `u64` space.
    pub open spec fn is_valid(self) -> bool {
        self.start <= self.end && self.end - self.start < u64::MAX
    }

    pub fn new(start: u64, end: u64) -> (r: Self)
        ensures
            r.start == start,
            r.end == end,
    {
        Self { start, end }
    }

    pub fn len(&self) -> (n: u64)
        requires
            self.is_valid(),
        ensures
            n == self.spec_len(),
    {
        (self.end - self.start) + 1
    }

    /// The `Range` request header asking for exactly this range.
    pub fn to_range_header(&self) -> (h: headers::Range)
        ensures
            h == bytes_range_header(self.start, self.end),
    {
        match range_bytes(self.start, self.end) {
            Some(h) => h,
            None => unreached(),
        }
    }

    pub fn from_len(start: u64, len: u64) -> (r: Self)
        requires
            start + len >= 1,
            start + len <= u64::MAX,
        ensures
            r.start == start,
            r.end == start + len - 1,
            r.spec_len() == len,
    {
        Self { start, end: start + len - 1 }
    }
}

/// A range that can sit in the remaining list: its length is computable and a
/// chunk that ends at its end can be rebuilt by `from_len`.
pub open spec fn is_remaining_range(r: ChunkRange) -> bool {
    r.start <= r.end && r.end < u64::MAX
}

/// Every range of the list is a valid remaining range.
pub open spec fn all_remaining_ranges(ranges: Seq<ChunkRange>) -> bool {
    forall|i: int| 0 <= i < ranges.len() ==> is_remaining_range(#[trigger] ranges[i])
}

/// Sum of the lengths of the ranges.
pub open spec fn total_len(ranges: Seq<ChunkRange>) -> int
    decreases ranges.len(),
{
    if ranges.len() == 0 {
        0
    } else {
        total_len(ranges.drop_last()) + ranges.last().spec_len()
    }
}

/// What one call of `RemainingChunks::next` does to the list of remaining ranges
/// with chunk size `chunk_size`: the first range is handed out whole when it is
/// at most one chunk long, otherwise its first `chunk_size` bytes are handed out
/// and the rest of it stays first in the list.
pub open spec fn take_chunk(chunk_size: nat, ranges: Seq<ChunkRange>) -> (Option<ChunkRange>, Seq<ChunkRange>) {
    if ranges.len() == 0 {
        (None, ranges)
    } else {
        let r = ranges[0];
        if r.spec_len() <= chunk_size {
            (Some(r), ranges.drop_first())
        } else {
            (
                Some(ChunkRange { start: r.start, end: (r.start + chunk_size - 1) as u64 }),
                ranges.update(0, ChunkRange { start: (r.start + chunk_size) as u64, end: r.end }),
            )
        }
    }
}

/// The ranges of a file of `content_length` bytes that are left once every byte
/// before `offset` has been handed out.
pub open spec fn ranges_from(offset: int, content_length: int) -> Seq<ChunkRange> {
    if offset < content_length {
        seq![ChunkRange { start: offset as u64, end: (content_length - 1) as u64 }]
    } else {
        Seq::empty()
    }
}

/// The chunks handed out by `n` successive calls of `next`, and the ranges left after.
pub open spec fn take_chunks(chunk_size: nat, ranges: Seq<ChunkRange>, n: nat) -> (Seq<ChunkRange>, Seq<ChunkRange>)
    decreases n,
{
    if n == 0 {
        (Seq::empty(), ranges)
    } else {
        let (chunks, rest) = take_chunks(chunk_size, ranges, (n - 1) as nat);
        match take_chunk(chunk_size, rest).0 {
            Some(c) => (chunks.push(c), take_chunk(chunk_size, rest).1),
            None => (chunks, rest),
        }
    }
}

/// The remaining ranges of a file, handed out chunk by chunk.
#[derive(Debug, Clone)]
pub struct RemainingChunks {
    chunk_size: usize,
    ranges: Vec<ChunkRange>,
}

impl View for RemainingChunks {
    type V = Seq<ChunkRange>;

    closed spec fn view(&self) -> Seq<ChunkRange> {
        self.ranges@
    }
}

impl RemainingChunks {
    /// The chunk size the ranges are cut in.
    pub closed spec fn chunk_len(&self) -> nat {
        self.chunk_size as nat
    }

    /// The chunk size is positive and every remaining range is a valid remaining range.
    pub open spec fn wf(&self) -> bool {
        &&& self.chunk_len() > 0
        &&& all_remaining_ranges(self@)
    }

    pub fn new(chunk_size: usize, content_length: u64) -> (r: Self)
        requires
            chunk_size > 0,
            content_length >= 1,
        ensures
            r.wf(),
            r.chunk_len() == chunk_size,
            r@ == seq![ChunkRange { start: 0, end: (content_length - 1) as u64 }],
            r@ == ranges_from(0, content_length as int),
            total_len(r@) == content_length,
    {
        let r = Self { chunk_size: chunk_size, ranges: vec![ChunkRange::from_len(0, content_length)] };
        assert(r.ranges@ =~= seq![ChunkRange { start: 0, end: (content_length - 1) as u64 }]);
        assert(r.ranges@.drop_last() =~= Seq::<ChunkRange>::empty());
        assert(total_len(r@.drop_last()) == 0);
        r
    }

    /// The remaining ranges, first to be handed out first.
    pub fn ranges(&self) -> (r: &Vec<ChunkRange>)
        ensures
            r@ == self@,
    {
        &self.ranges
    }

    pub fn next(&mut self) -> (r: Option<ChunkRange>)
        requires
            old(self).wf(),
        ensures
            final(self).wf(),
            final(self).chunk_len() == old(self).chunk_len(),
            (r, final(self)@) == take_chunk(old(self).chunk_len(), old(self)@),
        decreases old(self)@.len(),
    {
        let chunk_size = self.chunk_size as u64;
        if self.ranges.len() == 0 {
            return None;
        }
        let range = self.ranges[0];
        assert(is_remaining_range(self.ranges@[0]));
        let range_len = range.len();
        let len = if range_len == 0 {
            self.ranges.remove(0);
            return self.next();
        } else if range_len <= chunk_size {
            self.ranges.remove(0);
            assert(self.ranges@ =~= old(self).ranges@.drop_first());
            range_len
        } else {
            self.ranges.set(0, ChunkRange::new(range.start + chunk_size, range.end));
            chunk_size
        };
        Some(ChunkRange::from_len(range.start, len))
    }
}


/// The chunk bookkeeping of one download: chunks handed out so far, the ranges
/// not handed out yet, and chunks that were interrupted and must be fetched again.
#[derive(Debug, Clone)]
pub struct ChunkData {
    pub iter_count: usize,
    pub remaining: RemainingChunks,
    pub last_incomplete_chunks: Vec<ChunkInfo>,
}

/// The byte ranges of a list of chunks.
pub open spec fn ranges_of(chunks: Seq<ChunkInfo>) -> Seq<ChunkRange> {
    chunks.map_values(|c: ChunkInfo| c.range)
}

/// The chunk bookkeeping of a `ChunkData` as plain values: the count of chunks
/// handed out, the remaining ranges, the interrupted chunks.
pub open spec fn data_state(d: ChunkData) -> (int, Seq<ChunkRange>, Seq<ChunkInfo>) {
    (d.iter_count as int, d.remaining@, d.last_incomplete_chunks@)
}

/// One call of `ChunkData::next` on plain values: the last interrupted chunk
/// first; otherwise the next chunk of the remaining ranges, with the next index.
pub open spec fn next_chunk(chunk_size: nat, state: (int, Seq<ChunkRange>, Seq<ChunkInfo>)) -> (
    Option<ChunkInfo>,
    (int, Seq<ChunkRange>, Seq<ChunkInfo>),
) {
    let (count, ranges, incomplete) = state;
    if incomplete.len() > 0 {
        (Some(incomplete.last()), (count, ranges, incomplete.drop_last()))
    } else {
        match take_chunk(chunk_size, ranges).0 {
            Some(c) => (
                Some(ChunkInfo { index: (count + 1) as usize, range: c }),
                (count + 1, take_chunk(chunk_size, ranges).1, incomplete),
            ),
            None => (None, state),
        }
    }
}

/// Up to `n` calls of `ChunkData::next`, stopping at the first that hands out no
/// chunk: the chunks handed out, and the state after.
pub open spec fn next_chunks(chunk_size: nat, state: (int, Seq<ChunkRange>, Seq<ChunkInfo>), n: nat) -> (
    Seq<ChunkInfo>,
    (int, Seq<ChunkRange>, Seq<ChunkInfo>),
)
    decreases n,
{
    if n == 0 {
        (Seq::empty(), state)
    } else {
        match next_chunk(chunk_size, state).0 {
            Some(c) => {
                let (rest, last) = next_chunks(chunk_size, next_chunk(chunk_size, state).1, (n - 1) as nat);
                (seq![c] + rest, last)
            },
            None => (Seq::empty(), state),
        }
    }
}

impl ChunkData {
    /// Bytes not downloaded yet: the remaining ranges and the interrupted chunks.
    pub open spec fn spec_remaining_len(self) -> int {
        total_len(self.remaining@) + total_len(ranges_of(self.last_incomplete_chunks@))
    }

    /// Every interrupted chunk has a range whose length can be computed.
    pub open spec fn incomplete_valid(self) -> bool {
        forall|i: int|
            0 <= i < self.last_incomplete_chunks@.len() ==> (#[trigger] self.last_incomplete_chunks@[i]).range.is_valid()
    }

    /// The effect of one call of `next`, turning `self` into `after` and returning `r`:
    /// an interrupted chunk is handed out again first (the last one first); when
    /// there is none, the next chunk of the remaining ranges gets the next index.
    pub open spec fn next_step(self, after: Self, r: Option<ChunkInfo>) -> bool {
        &&& after.remaining.wf()
        &&& after.remaining.chunk_len() == self.remaining.chunk_len()
        &&& if self.last_incomplete_chunks@.len() > 0 {
            &&& r == Some(self.last_incomplete_chunks@.last())
            &&& after.last_incomplete_chunks@ == self.last_incomplete_chunks@.drop_last()
            &&& after.remaining@ == self.remaining@
            &&& after.iter_count == self.iter_count
        } else {
            let (c, rest) = take_chunk(self.remaining.chunk_len(), self.remaining@);
            &&& after.remaining@ == rest
            &&& after.last_incomplete_chunks@ == self.last_incomplete_chunks@
            &&& match c {
                Some(c) => {
                    &&& r == Some(ChunkInfo { index: (self.iter_count + 1) as usize, range: c })
                    &&& after.iter_count == self.iter_count + 1
                },
                None => {
                    &&& r is None
                    &&& after.iter_count == self.iter_count
                },
            }
        }
    }

    pub fn new(chunk_size: usize, content_length: u64) -> (r: Self)
        requires
            chunk_size > 0,
            content_length >= 1,
        ensures
            r.iter_count == 0,
            r.remaining.wf(),
            r.remaining.chunk_len() == chunk_size,
            r.remaining@ == ranges_from(0, content_length as int),
            r.last_incomplete_chunks@ == Seq::<ChunkInfo>::empty(),
            r.incomplete_valid(),
            r.spec_remaining_len() == content_length,
    {
        let r = Self {
            iter_count: 0,
            remaining: RemainingChunks::new(chunk_size, content_length),
            last_incomplete_chunks: Vec::new(),
        };
        proof {
            let rs = r.remaining@;
            assert(rs.drop_last() =~= Seq::<ChunkRange>::empty());
            assert(ranges_of(r.last_incomplete_chunks@) =~= Seq::<ChunkRange>::empty());
        }
        r
    }

    /// Bytes still to download.
    pub fn remaining_len(&self) -> (n: u64)
        requires
            self.remaining.wf(),
            self.incomplete_valid(),
            self.spec_remaining_len() <= u64::MAX,
        ensures
            n == self.spec_remaining_len(),
    {
        let mut len: u64 = 0;
        let ranges = self.remaining.ranges();
        let ghost rs = self.remaining@;
        let ghost infos = ranges_of(self.last_incomplete_chunks@);
        proof {
            lemma_total_len_nonneg(rs);
            lemma_total_len_nonneg(infos);
        }
        let mut i: usize = 0;
        while i < ranges.len()
            invariant
                ranges@ == rs,
                self.remaining.wf(),
                rs == self.remaining@,
                0 <= i <= rs.len(),
                len == total_len(rs.take(i as int)),
                total_len(rs) + total_len(infos) <= u64::MAX,
                total_len(infos) >= 0,
            decreases rs.len() - i,
        {
            proof {
                assert(rs.take(i + 1).drop_last() =~= rs.take(i as int));
                lemma_total_len_prefix(rs, i + 1);
                assert(is_remaining_range(rs[i as int]));
            }
            len = len + ranges[i].len();
            i = i + 1;
        }
        assert(rs.take(rs.len() as int) =~= rs);
        let mut j: usize = 0;
        while j < self.last_incomplete_chunks.len()
            invariant
                infos == ranges_of(self.last_incomplete_chunks@),
                self.incomplete_valid(),
                0 <= j <= infos.len(),
                len == total_len(rs) + total_len(infos.take(j as int)),
                total_len(rs) + total_len(infos) <= u64::MAX,
                total_len(rs) >= 0,
            decreases infos.len() - j,
        {
            proof {
                assert(infos.take(j + 1).drop_last() =~= infos.take(j as int));
                lemma_total_len_prefix(infos, j + 1);
                assert(self.last_incomplete_chunks@[j as int].range.is_valid());
            }
            len = len + self.last_incomplete_chunks[j].range.len();
            j = j + 1;
        }
        assert(infos.take(infos.len() as int) =~= infos);
        len
    }

    /// Bytes still to download, or `None` where that count does not fit in a `u64`.
    pub fn checked_remaining_len(&self) -> (r: Option<u64>)
        requires
            self.remaining.wf(),
            self.incomplete_valid(),
        ensures
            r == (if self.spec_remaining_len() <= u64::MAX {
                Some(self.spec_remaining_len() as u64)
            } else {
                None::<u64>
            }),
    {
        let mut len: u64 = 0;
        let ranges = self.remaining.ranges();
        let ghost rs = self.remaining@;
        let ghost infos = ranges_of(self.last_incomplete_chunks@);
        proof {
            lemma_total_len_nonneg(rs);
            lemma_total_len_nonneg(infos);
        }
        let mut i: usize = 0;
        while i < ranges.len()
            invariant
                ranges@ == rs,
                self.remaining.wf(),
                rs == self.remaining@,
                infos == ranges_of(self.last_incomplete_chunks@),
                0 <= i <= rs.len(),
                len == total_len(rs.take(i as int)),
                total_len(infos) >= 0,
            decreases rs.len() - i,
        {
            proof {
                assert(rs.take(i + 1).drop_last() =~= rs.take(i as int));
                lemma_total_len_prefix(rs, i + 1);
                assert(is_remaining_range(rs[i as int]));
            }
            match len.checked_add(ranges[i].len()) {
                Some(n) => len = n,
                None => return None,
            }
            i = i + 1;
        }
        assert(rs.take(rs.len() as int) =~= rs);
        let mut j: usize = 0;
        while j < self.last_incomplete_chunks.len()
            invariant
                infos == ranges_of(self.last_incomplete_chunks@),
                self.incomplete_valid(),
                0 <= j <= infos.len(),
                len == total_len(rs) + total_len(infos.take(j as int)),
                total_len(rs) >= 0,
                rs == self.remaining@,
            decreases infos.len() - j,
        {
            proof {
                assert(infos.take(j + 1).drop_last() =~= infos.take(j as int));
                assert forall|k: int| 0 <= k < infos.len() implies (#[trigger] infos[k]).start <= infos[k].end by {
                    assert(self.last_incomplete_chunks@[k].range.is_valid());
                }
                lemma_total_len_prefix(infos, j + 1);
                assert(self.last_incomplete_chunks@[j as int].range.is_valid());
            }
            assert(infos.take(j + 1).last() == self.last_incomplete_chunks@[j as int].range);
            match len.checked_add(self.last_incomplete_chunks[j].range.len()) {
                Some(n) => len = n,
                None => {
                    assert(self.spec_remaining_len() >= total_len(rs) + total_len(infos.take(j + 1)));
                    return None;
                },
            }
            j = j + 1;
        }
        assert(infos.take(infos.len() as int) =~= infos);
        Some(len)
    }

    /// The next chunk to download, if any.
    pub fn next(&mut self) -> (r: Option<ChunkInfo>)
        requires
            old(self).remaining.wf(),
            old(self).last_incomplete_chunks@.len() == 0 && old(self).remaining@.len() > 0
                ==> old(self).iter_count < usize::MAX,
        ensures
            old(self).next_step(*final(self), r),
            old(self).incomplete_valid() ==> {
                &&& final(self).incomplete_valid()
                &&& (r is None <==> old(self).spec_remaining_len() == 0)
                &&& r matches Some(c) ==> c.range.is_valid() && old(self).spec_remaining_len()
                    == c.range.spec_len() + final(self).spec_remaining_len()
            },
    {
        let ghost before = *self;
        let r = self.next_inner();
        proof {
            if before.incomplete_valid() {
                lemma_next_keeps_remaining_len(before, *self, r);
            }
        }
        r
    }

    fn next_inner(&mut self) -> (r: Option<ChunkInfo>)
        requires
            old(self).remaining.wf(),
            old(self).last_incomplete_chunks@.len() == 0 && old(self).remaining@.len() > 0
                ==> old(self).iter_count < usize::MAX,
        ensures
            old(self).next_step(*final(self), r),
    {
        if let Some(chunk_info) = self.last_incomplete_chunks.pop() {
            return Some(chunk_info);
        }
        let range = self.remaining.next();
        if let Some(range) = range {
            self.iter_count += 1;
            let result = ChunkInfo { index: self.iter_count, range };
            Some(result)
        } else {
            None
        }
    }
}

/// Hands out the chunks of one download, one call of `next` at a time.
pub struct ChunkRangeIterator {
    pub data: ChunkData,
}

impl ChunkRangeIterator {
    pub fn new(chunk_data: ChunkData) -> (r: Self)
        ensures
            r.data == chunk_data,
    {
        Self { data: chunk_data }
    }

    pub fn next(&mut self) -> (r: Option<ChunkInfo>)
        requires
            old(self).data.remaining.wf(),
            old(self).data.last_incomplete_chunks@.len() == 0 && old(self).data.remaining@.len() > 0
                ==> old(self).data.iter_count < usize::MAX,
        ensures
            old(self).data.next_step(final(self).data, r),
            old(self).data.incomplete_valid() ==> {
                &&& final(self).data.incomplete_valid()
                &&& (r is None <==> old(self).data.spec_remaining_len() == 0)
                &&& r matches Some(c) ==> c.range.is_valid() && old(self).data.spec_remaining_len()
                    == c.range.spec_len() + final(self).data.spec_remaining_len()
            },
    {
        self.data.next()
    }
}

/// `next_step` is `next_chunk` on the plain values of the bookkeeping.
pub proof fn lemma_next_step_is_next_chunk(before: ChunkData, after: ChunkData, r: Option<ChunkInfo>)
    requires
        before.next_step(after, r),
    ensures
        (r, data_state(after)) == next_chunk(before.remaining.chunk_len(), data_state(before)),
{
}

/// Lengths of remaining ranges are positive, so their sum is not negative.
pub proof fn lemma_total_len_nonneg(ranges: Seq<ChunkRange>)
    ensures
        (forall|i: int| 0 <= i < ranges.len() ==> (#[trigger] ranges[i]).start <= ranges[i].end)
            ==> total_len(ranges) >= 0,
    decreases ranges.len(),
{
    if ranges.len() > 0 {
        lemma_total_len_nonneg(ranges.drop_last());
        if forall|i: int| 0 <= i < ranges.len() ==> (#[trigger] ranges[i]).start <= ranges[i].end {
            assert(ranges.last().start <= ranges.last().end);
            assert forall|i: int| 0 <= i < ranges.drop_last().len() implies (#[trigger] ranges.drop_last()[i]).start
                <= ranges.drop_last()[i].end by {
                assert(ranges.drop_last()[i] == ranges[i]);
            }
        }
    }
}


/// A prefix of a list of non-empty ranges is no longer than the whole list.
pub proof fn lemma_total_len_prefix(ranges: Seq<ChunkRange>, k: int)
    requires
        0 <= k <= ranges.len(),
        forall|i: int| 0 <= i < ranges.len() ==> (#[trigger] ranges[i]).start <= ranges[i].end,
    ensures
        total_len(ranges.take(k)) <= total_len(ranges),
        total_len(ranges.take(k)) >= 0,
    decreases ranges.len(),
{
    lemma_total_len_nonneg(ranges.take(k));
    if k == ranges.len() {
        assert(ranges.take(k) =~= ranges);
    } else {
        let d = ranges.drop_last();
        assert(ranges.take(k) =~= d.take(k));
        assert forall|i: int| 0 <= i < d.len() implies (#[trigger] d[i]).start <= d[i].end by {
            assert(d[i] == ranges[i]);
        }
        lemma_total_len_prefix(d, k);
        assert(ranges.last().start <= ranges.last().end);
    }
}


/// The total length of a list is the length of its first range plus that of the rest.
pub proof fn lemma_total_len_first(ranges: Seq<ChunkRange>)
    requires
        ranges.len() > 0,
    ensures
        total_len(ranges) == ranges[0].spec_len() + total_len(ranges.drop_first()),
    decreases ranges.len(),
{
    if ranges.len() == 1 {
        assert(ranges.drop_last() =~= Seq::<ChunkRange>::empty());
        assert(ranges.drop_first() =~= Seq::<ChunkRange>::empty());
    } else {
        let d = ranges.drop_last();
        lemma_total_len_first(d);
        assert(ranges.drop_first().drop_last() =~= d.drop_first());
        assert(ranges.drop_first().last() == ranges.last());
        assert(d[0] == ranges[0]);
    }
}

/// Law: one call of `RemainingChunks::next` hands out a chunk exactly when ranges
/// remain; the chunk is the front of the first remaining range, at most one chunk
/// size long, and the bytes it takes leave the remaining total: nothing is lost
/// and nothing is handed out twice.
pub proof fn lemma_take_chunk_conserves(chunk_size: nat, ranges: Seq<ChunkRange>)
    requires
        chunk_size > 0,
        all_remaining_ranges(ranges),
    ensures
        ({
            let (c, rest) = take_chunk(chunk_size, ranges);
            &&& all_remaining_ranges(rest)
            &&& (c is None <==> ranges.len() == 0)
            &&& c is None ==> rest == ranges && total_len(ranges) == 0
            &&& c matches Some(c) ==> {
                &&& c.start == ranges[0].start
                &&& c.end <= ranges[0].end
                &&& is_remaining_range(c)
                &&& 1 <= c.spec_len() <= chunk_size
                &&& total_len(ranges) == c.spec_len() + total_len(rest)
                &&& rest.len() > 0 && rest.len() == ranges.len() ==> rest[0].start == c.end + 1
            }
        }),
{
    let (c, rest) = take_chunk(chunk_size, ranges);
    if ranges.len() > 0 {
        let r = ranges[0];
        assert(is_remaining_range(r));
        lemma_total_len_first(ranges);
        if r.spec_len() <= chunk_size {
            assert forall|i: int| 0 <= i < rest.len() implies is_remaining_range(#[trigger] rest[i]) by {
                assert(rest[i] == ranges[i + 1]);
            }
        } else {
            lemma_total_len_first(rest);
            assert(rest.drop_first() =~= ranges.drop_first());
            assert forall|i: int| 0 <= i < rest.len() implies is_remaining_range(#[trigger] rest[i]) by {
                if i > 0 {
                    assert(rest[i] == ranges[i]);
                }
            }
        }
    }
}

/// Law: splitting a file of `content_length` bytes. Starting from the ranges that
/// `RemainingChunks::new` makes, `n` calls of `next` hand out chunks `i = 0, 1, ..`
/// covering `i * chunk_size ..= min((i + 1) * chunk_size, content_length) - 1`: they
/// follow each other without gap or overlap, and calls stop handing out chunks
/// (return `None`) only once the whole content is covered.
pub proof fn lemma_chunks_cover_content(chunk_size: nat, content_length: nat, n: nat)
    requires
        chunk_size > 0,
        content_length <= u64::MAX,
    ensures
        ({
            let (chunks, rest) = take_chunks(chunk_size, ranges_from(0, content_length as int), n);
            &&& chunks.len() <= n
            &&& chunks.len() < n ==> chunks.len() * chunk_size >= content_length
            &&& forall|i: int| 0 <= i < chunks.len() ==> {
                &&& (#[trigger] chunks[i]).start == i * chunk_size
                &&& chunks[i].end + 1 == if (i + 1) * chunk_size <= content_length {
                    (i + 1) * chunk_size
                } else {
                    content_length as int
                }
            }
            &&& rest == ranges_from((chunks.len() * chunk_size) as int, content_length as int)
        }),
    decreases n,
{
    if n > 0 {
        lemma_chunks_cover_content(chunk_size, content_length, (n - 1) as nat);
        let (chunks, rest) = take_chunks(chunk_size, ranges_from(0, content_length as int), (n - 1) as nat);
        let m = chunks.len();
        let off = m * chunk_size;
        assert((m + 1) * chunk_size == off + chunk_size) by (nonlinear_arith)
            requires
                off == m * chunk_size,
        ;
        if off < content_length {
            assert(off >= 0) by (nonlinear_arith)
                requires
                    m >= 0,
                    chunk_size > 0,
                    off == m * chunk_size,
            ;
        }
    }
}


/// Law: `ChunkData::next` accounts for every byte. A chunk is handed out exactly
/// when bytes remain, and the bytes still to download drop by exactly the length
/// of the chunk handed out; when no chunk comes, nothing remains.
pub proof fn lemma_next_keeps_remaining_len(before: ChunkData, after: ChunkData, r: Option<ChunkInfo>)
    requires
        before.remaining.wf(),
        before.incomplete_valid(),
        before.next_step(after, r),
    ensures
        after.remaining.wf(),
        after.incomplete_valid(),
        r is None <==> before.spec_remaining_len() == 0,
        r matches Some(c) ==> c.range.is_valid() && before.spec_remaining_len() == c.range.spec_len()
            + after.spec_remaining_len(),
{
    lemma_take_chunk_conserves(before.remaining.chunk_len(), before.remaining@);
    lemma_total_len_nonneg(before.remaining@);
    let inc = before.last_incomplete_chunks@;
    if inc.len() > 0 {
        assert(ranges_of(inc).drop_last() =~= ranges_of(inc.drop_last()));
        assert(inc.last() == inc[inc.len() - 1]);
        assert(inc.last().range.is_valid());
        lemma_total_len_nonneg(ranges_of(inc.drop_last()));
        assert forall|i: int| 0 <= i < after.last_incomplete_chunks@.len() implies (
        #[trigger] after.last_incomplete_chunks@[i]).range.is_valid() by {
            assert(after.last_incomplete_chunks@[i] == inc[i]);
        }
    } else {
        assert(ranges_of(inc) =~= Seq::<ChunkRange>::empty());
        if before.remaining@.len() > 0 {
            lemma_total_len_first(before.remaining@);
            lemma_total_len_nonneg(before.remaining@.drop_first());
            assert(is_remaining_range(before.remaining@[0]));
        }
    }
}


/// For `chunk_size > 0` and `0 <= j`, the `j`-th chunk (from 0) starts inside a
/// file of `content_length` bytes exactly when `j` is below the chunk count,
/// `content_length` divided by `chunk_size`, rounded up.
pub proof fn lemma_chunk_count(j: int, chunk_size: int, content_length: int)
    requires
        chunk_size > 0,
        j >= 0,
        content_length >= 0,
    ensures
        (j * chunk_size < content_length) <==> j < (content_length + chunk_size - 1) / chunk_size,
{
    let q = (content_length + chunk_size - 1) / chunk_size;
    let r = (content_length + chunk_size - 1) % chunk_size;
    assert(q * chunk_size + r == content_length + chunk_size - 1 && 0 <= r < chunk_size) by (nonlinear_arith)
        requires
            chunk_size > 0,
            q == (content_length + chunk_size - 1) / chunk_size,
            r == (content_length + chunk_size - 1) % chunk_size,
    ;
    if j * chunk_size < content_length {
        assert(j < q) by (nonlinear_arith)
            requires
                chunk_size > 0,
                j * chunk_size < content_length,
                q * chunk_size + r == content_length + chunk_size - 1,
                r < chunk_size,
        ;
    }
    if j < q {
        assert(j * chunk_size < content_length) by (nonlinear_arith)
            requires
                chunk_size > 0,
                j < q,
                j >= 0,
                q * chunk_size + r == content_length + chunk_size - 1,
                0 <= r,
        ;
    }
}

/// One cut of the ranges left once the first `i` chunks of a file were handed
/// out: the `i`-th chunk, if it starts inside the file, and what is left after it.
pub(crate) proof fn lemma_take_chunk_from(chunk_size: nat, content_length: nat, i: nat)
    requires
        chunk_size > 0,
        content_length <= u64::MAX,
    ensures
        ({
            let (c, rest) = take_chunk(chunk_size, ranges_from((i * chunk_size) as int, content_length as int));
            &&& rest == ranges_from(((i + 1) * chunk_size) as int, content_length as int)
            &&& (c is Some <==> i * chunk_size < content_length)
            &&& c matches Some(r) ==> {
                &&& r.start == i * chunk_size
                &&& r.end + 1 == if (i + 1) * chunk_size <= content_length {
                    ((i + 1) * chunk_size) as int
                } else {
                    content_length as int
                }
            }
        }),
{
    assert((i + 1) * chunk_size == i * chunk_size + chunk_size) by (nonlinear_arith);
    assert(i * chunk_size >= 0) by (nonlinear_arith);
    let rs = ranges_from((i * chunk_size) as int, content_length as int);
    if i * chunk_size < content_length {
        let (c, rest) = take_chunk(chunk_size, rs);
        if rs[0].spec_len() <= chunk_size {
            assert(rest =~= ranges_from(((i + 1) * chunk_size) as int, content_length as int));
        } else {
            assert(rest =~= ranges_from(((i + 1) * chunk_size) as int, content_length as int));
        }
    }
}

/// What remains after the first `i` calls of a sequence of cuts that starts on a
/// whole file.
pub(crate) proof fn lemma_cuts_leave(
    chunk_size: nat,
    content_length: nat,
    states: Seq<Seq<ChunkRange>>,
    outs: Seq<Option<ChunkRange>>,
    i: nat,
)
    requires
        chunk_size > 0,
        content_length <= u64::MAX,
        states.len() == outs.len() + 1,
        states[0] == ranges_from(0, content_length as int),
        forall|k: int| 0 <= k < outs.len() ==> (outs[k], states[k + 1]) == #[trigger] take_chunk(chunk_size, states[k]),
        i < states.len(),
    ensures
        states[i as int] == ranges_from((i * chunk_size) as int, content_length as int),
    decreases i,
{
    if i > 0 {
        lemma_cuts_leave(chunk_size, content_length, states, outs, (i - 1) as nat);
        lemma_take_chunk_from(chunk_size, content_length, (i - 1) as nat);
        assert((i - 1) * chunk_size + chunk_size == i * chunk_size) by (nonlinear_arith)
            requires
                i > 0,
        ;
        assert((outs[i - 1], states[i as int]) == take_chunk(chunk_size, states[i - 1]));
    } else {
        assert(0 * chunk_size == 0);
    }
}

/// Law: successive calls of `next` on a new `RemainingChunks` of a file of
/// `file_size` bytes cut the file in order, each byte once. `calls[k]` is the value
/// before call `k` (from 0) and `outs[k]` what that call returned. Call `j` hands
/// out a chunk exactly when `j` is below `file_size / chunk_size` rounded up, and
/// then from the first call that hands out none on, no call hands out any; chunk
/// `j` is the bytes from `j * chunk_size` up to the next multiple of `chunk_size`
/// or the end of the file; after `i` calls the ranges left are the bytes from
/// `i * chunk_size` to the end of the file, each range valid.
pub proof fn lemma_next_cuts_in_order(
    chunk_size: nat,
    file_size: nat,
    calls: Seq<RemainingChunks>,
    outs: Seq<Option<ChunkRange>>,
)
    requires
        chunk_size > 0,
        file_size <= u64::MAX,
        calls.len() == outs.len() + 1,
        calls[0]@ == ranges_from(0, file_size as int),
        forall|k: int| 0 <= k < calls.len() ==> (#[trigger] calls[k]).chunk_len() == chunk_size,
        forall|k: int|
            0 <= k < outs.len() ==> (outs[k], calls[k + 1]@) == #[trigger] take_chunk(calls[k].chunk_len(), calls[k]@),
    ensures
        forall|i: int|
            0 <= i < calls.len() ==> (#[trigger] calls[i])@ == ranges_from(i * chunk_size, file_size as int)
                && all_remaining_ranges(calls[i]@),
        forall|j: int| 0 <= j < outs.len() ==> ((#[trigger] outs[j]) is Some <==> j < (file_size + chunk_size - 1) / (chunk_size as int)),
        forall|j: int|
            0 <= j < outs.len() ==> (#[trigger] outs[j] matches Some(c) ==> {
                &&& c.start == j * chunk_size
                &&& c.end + 1 == if (j + 1) * chunk_size <= file_size {
                    (j + 1) * chunk_size
                } else {
                    file_size as int
                }
            }),
{
    let views = Seq::new(calls.len(), |k: int| calls[k]@);
    assert forall|k: int| 0 <= k < outs.len() implies (outs[k], views[k + 1]) == #[trigger] take_chunk(
        chunk_size,
        views[k],
    ) by {
        assert(calls[k].chunk_len() == chunk_size);
        assert(take_chunk(calls[k].chunk_len(), calls[k]@) == take_chunk(chunk_size, views[k]));
    }
    assert forall|i: int| 0 <= i < calls.len() implies (#[trigger] calls[i])@ == ranges_from(
        i * chunk_size,
        file_size as int,
    ) && all_remaining_ranges(calls[i]@) by {
        lemma_cuts_leave(chunk_size, file_size, views, outs, i as nat);
        assert(views[i] == calls[i]@);
    }
    assert forall|j: int| 0 <= j < outs.len() implies ((#[trigger] outs[j]) is Some <==> j < (file_size + chunk_size
        - 1) / (chunk_size as int)) && (outs[j] matches Some(c) ==> {
        &&& c.start == j * chunk_size
        &&& c.end + 1 == if (j + 1) * chunk_size <= file_size {
            (j + 1) * chunk_size
        } else {
            file_size as int
        }
    }) by {
        lemma_cuts_leave(chunk_size, file_size, views, outs, j as nat);
        lemma_take_chunk_from(chunk_size, file_size, j as nat);
        lemma_chunk_count(j, chunk_size as int, file_size as int);
        assert((outs[j], views[j + 1]) == take_chunk(chunk_size, views[j]));
    }
}


/// Law: `ChunkData::next` hands out the last interrupted chunk first, unchanged;
/// when none is queued, it hands out the front of the first remaining range,
/// `chunk_size` bytes of it or the whole range when that is shorter, numbered one
/// past the chunks handed out so far, and the remaining ranges lose exactly those
/// bytes from their front; with nothing left, it hands out nothing and changes
/// nothing. `before` and `after` are the values before and after the call, `r`
/// its result.
pub proof fn lemma_next_hands_out_the_front(before: ChunkData, after: ChunkData, r: Option<ChunkInfo>)
    requires
        before.remaining.wf(),
        before.next_step(after, r),
    ensures
        before.last_incomplete_chunks@.len() > 0 ==> {
            &&& r == Some(before.last_incomplete_chunks@.last())
            &&& after.last_incomplete_chunks@ == before.last_incomplete_chunks@.drop_last()
            &&& after.remaining@ == before.remaining@
            &&& after.iter_count == before.iter_count
        },
        before.last_incomplete_chunks@.len() == 0 && before.remaining@.len() == 0 ==> {
            &&& r is None
            &&& after.remaining@ == before.remaining@
            &&& after.last_incomplete_chunks@ == before.last_incomplete_chunks@
            &&& after.iter_count == before.iter_count
        },
        before.last_incomplete_chunks@.len() == 0 && before.remaining@.len() > 0 ==> {
            let front = before.remaining@[0];
            let size = before.remaining.chunk_len();
            &&& r is Some
            &&& r->0.index == before.iter_count + 1
            &&& r->0.range.start == front.start
            &&& r->0.range.spec_len() == if front.spec_len() <= size {
                front.spec_len()
            } else {
                size as int
            }
            &&& after.iter_count == before.iter_count + 1
            &&& after.last_incomplete_chunks@.len() == 0
            &&& after.remaining@ == if front.spec_len() <= size {
                before.remaining@.drop_first()
            } else {
                before.remaining@.update(0, ChunkRange { start: (r->0.range.end + 1) as u64, end: front.end })
            }
        },
{
    if before.last_incomplete_chunks@.len() == 0 && before.remaining@.len() > 0 {
        assert(is_remaining_range(before.remaining@[0]));
    }
}

/// Law: on a new `ChunkData` of a file of `file_size` bytes cut in chunks of
/// `chunk_size`, successive calls of `next` hand out the file in order, each byte
/// once: call `j` (from 0) hands out a chunk exactly when `j` is below
/// `file_size / chunk_size` rounded up, numbered `j + 1`, holding the bytes from
/// `j * chunk_size` up to the next multiple of `chunk_size` or the end of the
/// file. `calls[k]` is the value before call `k` and `outs[k]` what it returned.
pub proof fn lemma_next_hands_out_the_file_in_order(
    chunk_size: nat,
    file_size: nat,
    calls: Seq<ChunkData>,
    outs: Seq<Option<ChunkInfo>>,
)
    requires
        chunk_size > 0,
        file_size <= u64::MAX,
        calls.len() == outs.len() + 1,
        calls[0].iter_count == 0,
        calls[0].last_incomplete_chunks@.len() == 0,
        calls[0].remaining@ == ranges_from(0, file_size as int),
        calls[0].remaining.chunk_len() == chunk_size,
        calls[0].remaining.wf(),
        forall|k: int| 0 <= k < outs.len() ==> (#[trigger] calls[k]).next_step(calls[k + 1], outs[k]),
    ensures
        forall|j: int|
            0 <= j < outs.len() ==> ((#[trigger] outs[j]) is Some <==> j < (file_size + chunk_size - 1) / (
            chunk_size as int)),
        forall|j: int|
            0 <= j < outs.len() ==> (#[trigger] outs[j] matches Some(c) ==> {
                &&& c.index == j + 1
                &&& c.range.start == j * chunk_size
                &&& c.range.end + 1 == if (j + 1) * chunk_size <= file_size {
                    (j + 1) * chunk_size
                } else {
                    file_size as int
                }
            }),
{
    let views = Seq::new(calls.len(), |k: int| calls[k].remaining@);
    let cuts = Seq::new(outs.len(), |k: int| range_of(outs[k]));
    assert forall|k: int| 0 <= k < outs.len() implies (cuts[k], views[k + 1]) == #[trigger] take_chunk(
        chunk_size,
        views[k],
    ) by {
        lemma_next_run_state(calls, outs, chunk_size, k as nat);
        assert(calls[k].next_step(calls[k + 1], outs[k]));
    }
    assert forall|j: int| 0 <= j < outs.len() implies ((#[trigger] outs[j]) is Some <==> j < (file_size + chunk_size
        - 1) / (chunk_size as int)) && (outs[j] matches Some(c) ==> {
        &&& c.index == j + 1
        &&& c.range.start == j * chunk_size
        &&& c.range.end + 1 == if (j + 1) * chunk_size <= file_size {
            (j + 1) * chunk_size
        } else {
            file_size as int
        }
    }) by {
        lemma_cuts_leave(chunk_size, file_size, views, cuts, j as nat);
        lemma_take_chunk_from(chunk_size, file_size, j as nat);
        lemma_chunk_count(j, chunk_size as int, file_size as int);
        assert((cuts[j], views[j + 1]) == take_chunk(chunk_size, views[j]));
        lemma_next_run_state(calls, outs, chunk_size, j as nat);
        assert(calls[j].next_step(calls[j + 1], outs[j]));
        if outs[j] is Some {
            assert forall|k: int| 0 <= k < j implies (#[trigger] outs[k]) is Some by {
                lemma_cuts_leave(chunk_size, file_size, views, cuts, k as nat);
                lemma_take_chunk_from(chunk_size, file_size, k as nat);
                assert((cuts[k], views[k + 1]) == take_chunk(chunk_size, views[k]));
                assert(k * chunk_size <= j * chunk_size) by (nonlinear_arith)
                    requires
                        k <= j,
                ;
            }
        }
    }
}

/// The range a result hands out, if any.
pub open spec fn range_of(r: Option<ChunkInfo>) -> Option<ChunkRange> {
    match r {
        Some(c) => Some(c.range),
        None => None,
    }
}

/// Along a run of `next` calls from a new `ChunkData`, no chunk is interrupted,
/// the chunk size stays, and the count is the number of calls so far while the
/// calls handed out chunks.
proof fn lemma_next_run_state(calls: Seq<ChunkData>, outs: Seq<Option<ChunkInfo>>, chunk_size: nat, i: nat)
    requires
        calls.len() == outs.len() + 1,
        calls[0].iter_count == 0,
        calls[0].last_incomplete_chunks@.len() == 0,
        calls[0].remaining.chunk_len() == chunk_size,
        calls[0].remaining.wf(),
        forall|k: int| 0 <= k < outs.len() ==> (#[trigger] calls[k]).next_step(calls[k + 1], outs[k]),
        i < calls.len(),
    ensures
        calls[i as int].last_incomplete_chunks@.len() == 0,
        calls[i as int].remaining.chunk_len() == chunk_size,
        calls[i as int].remaining.wf(),
        (forall|k: int| 0 <= k < i ==> (#[trigger] outs[k]) is Some) ==> calls[i as int].iter_count == i,
    decreases i,
{
    if i > 0 {
        let p = (i - 1) as nat;
        lemma_next_run_state(calls, outs, chunk_size, p);
        assert(calls[p as int].next_step(calls[i as int], outs[p as int]));
        if forall|k: int| 0 <= k < i ==> (#[trigger] outs[k]) is Some {
            assert(outs[p as int] is Some);
            assert forall|k: int| 0 <= k < p implies (#[trigger] outs[k]) is Some by {
                assert(outs[k] is Some);
            }
        }
    }
}

/// Law: `n` calls of `next` in a row, as `start_download` makes them, hand out
/// `n` chunks, unless the download runs out of chunks first, and then nothing is
/// left to hand out: no remaining range and no interrupted chunk. The first
/// chunk is the one a single call hands out.
pub proof fn lemma_next_chunks_hands_out_n(chunk_size: nat, state: (int, Seq<ChunkRange>, Seq<ChunkInfo>), n: nat)
    requires
        chunk_size > 0,
    ensures
        ({
            let (chunks, last) = next_chunks(chunk_size, state, n);
            &&& chunks.len() <= n
            &&& chunks.len() < n ==> last.1.len() == 0 && last.2.len() == 0
            &&& n > 0 && (state.1.len() > 0 || state.2.len() > 0) ==> chunks.len() > 0 && Some(chunks[0])
                == next_chunk(chunk_size, state).0
        }),
    decreases n,
{
    if n > 0 {
        let (c, next) = next_chunk(chunk_size, state);
        lemma_next_chunks_hands_out_n(chunk_size, next, (n - 1) as nat);
        if c is Some {
            let rest = next_chunks(chunk_size, next, (n - 1) as nat).0;
            assert((seq![c->0] + rest)[0] == c->0);
        }
    }
}

} // verus!
