use vstd::prelude::*;
use std::collections::HashMap;
use crate::download::chunk_range::{
    ChunkInfo, ChunkRange, ChunkRangeIterator, data_state, lemma_next_keeps_remaining_len,
    lemma_next_step_is_next_chunk, next_chunk, next_chunks, ranges_of, take_chunk, total_len,
};
use crate::download::error::DownloadEndCause;

verus! {

broadcast use {vstd::std_specs::hash::group_hash_axioms, vstd::seq_lib::group_to_multiset_ensures};

/// How a chunk download ended, as far as the scheduling of chunks is concerned.
#[derive(Debug, Clone, Copy, PartialEq, Eq, Structural)]
pub enum ChunkOutcome {
    Ended(DownloadEndCause),
    Failed,
}

/// What the download loop does after a chunk ended.
#[derive(Debug, Clone, Copy, PartialEq, Eq, Structural)]
pub enum DownloadStep {
    /// Start downloading this chunk.
    Start(ChunkInfo),
    /// Wait for the chunks still downloading.
    Wait,
    /// The download ends for this reason.
    Stop(DownloadEndCause),
    /// A chunk failed: tell the other chunks to stop and report the error.
    Abort,
}

/// The chunks of one download: the iterator that hands them out, and those
/// downloading now, by chunk index.
pub struct ChunkManager {
    pub connection_count: u8,
    pub chunk_iter: ChunkRangeIterator,
    pub downloading_chunks: HashMap<usize, ChunkInfo>,
    /// The chunk iterator ran out of chunks.
    pub is_download_finished: bool,
}

/// `m` with the chunks of `s` filed under their indices, in order.
pub open spec fn with_chunks(m: Map<usize, ChunkInfo>, s: Seq<ChunkInfo>) -> Map<usize, ChunkInfo>
    decreases s.len(),
{
    if s.len() == 0 {
        m
    } else {
        with_chunks(m, s.drop_last()).insert(s.last().index, s.last())
    }
}

/// `s` is ordered by the start of its chunks' ranges.
pub open spec fn sorted_by_start(s: Seq<ChunkInfo>) -> bool {
    forall|i: int, j: int| 0 <= i <= j < s.len() ==> (#[trigger] s[i]).range.start <= (#[trigger] s[j]).range.start
}

impl ChunkManager {
    /// The chunks downloading now, by index.
    pub open spec fn downloading(&self) -> Map<usize, ChunkInfo> {
        self.downloading_chunks@
    }

    /// The bookkeeping is consistent: the remaining ranges are well formed,
    /// interrupted chunks have valid ranges, each downloading chunk is filed under
    /// its own index, and once the iterator ran out it holds nothing.
    pub open spec fn wf(&self) -> bool {
        &&& self.chunk_iter.data.remaining.wf()
        &&& self.chunk_iter.data.incomplete_valid()
        &&& forall|k: usize| #[trigger] self.downloading().contains_key(k) ==> self.downloading()[k].index == k
        &&& self.is_download_finished ==> self.chunk_iter.data.remaining@.len() == 0
            && self.chunk_iter.data.last_incomplete_chunks@.len() == 0
    }

    /// No more chunks are downloading than there are connections.
    pub open spec fn within_connections(&self) -> bool {
        self.downloading().len() <= self.connection_count
    }

    /// The iterator can number the chunk it hands out next, if that is a new one.
    pub open spec fn can_number_next(&self) -> bool {
        self.chunk_iter.data.last_incomplete_chunks@.len() == 0 && self.chunk_iter.data.remaining@.len() > 0
            ==> self.chunk_iter.data.iter_count < usize::MAX
    }

    pub fn new(connection_count: u8, chunk_iter: ChunkRangeIterator) -> (r: Self)
        requires
            chunk_iter.data.remaining.wf(),
            chunk_iter.data.incomplete_valid(),
        ensures
            r.wf(),
            r.connection_count == connection_count,
            r.chunk_iter == chunk_iter,
            r.downloading() == Map::<usize, ChunkInfo>::empty(),
            r.within_connections(),
            !r.is_download_finished,
    {
        Self { chunk_iter, connection_count, downloading_chunks: HashMap::new(), is_download_finished: false }
    }

    pub fn insert_downloading_chunk(&mut self, chunk_item: ChunkInfo)
        ensures
            final(self).downloading() == old(self).downloading().insert(chunk_item.index, chunk_item),
            final(self).chunk_iter == old(self).chunk_iter,
            final(self).connection_count == old(self).connection_count,
            final(self).is_download_finished == old(self).is_download_finished,
    {
        self.downloading_chunks.insert(chunk_item.index, chunk_item);
    }

    /// Removes a chunk from the downloading ones and returns how many remain.
    pub fn remove_downloading_chunk(&mut self, chunk_index: usize) -> (n: usize)
        ensures
            final(self).downloading() == old(self).downloading().remove(chunk_index),
            n == final(self).downloading().len(),
            final(self).chunk_iter == old(self).chunk_iter,
            final(self).connection_count == old(self).connection_count,
            final(self).is_download_finished == old(self).is_download_finished,
    {
        self.downloading_chunks.remove(&chunk_index);
        self.downloading_chunks.len()
    }

    /// Takes the next chunk from the iterator and files it as downloading.
    pub fn download_next_chunk(&mut self) -> (r: Option<ChunkInfo>)
        requires
            old(self).wf(),
            old(self).can_number_next(),
        ensures
            final(self).wf(),
            old(self).chunk_iter.data.next_step(final(self).chunk_iter.data, r),
            r matches Some(c) ==> final(self).downloading() == old(self).downloading().insert(c.index, c),
            r is None ==> final(self).downloading() == old(self).downloading(),
            final(self).connection_count == old(self).connection_count,
            final(self).is_download_finished == old(self).is_download_finished,
    {
        let ghost before = self.chunk_iter.data;
        let next = self.chunk_iter.next();
        proof {
            lemma_next_keeps_remaining_len(before, self.chunk_iter.data, next);
        }
        if let Some(chunk_info) = next {
            let ghost m0 = self.downloading();
            assert(m0 == old(self).downloading());
            self.insert_downloading_chunk(chunk_info);
            assert forall|k: usize| #[trigger] self.downloading().contains_key(k) implies self.downloading()[k].index
                == k by {
                if k != chunk_info.index {
                    assert(m0.contains_key(k));
                }
            }
            Some(chunk_info)
        } else {
            assert(self.downloading() == old(self).downloading());
            None
        }
    }

    /// Starts the download: hands out up to `connection_count` chunks, and notes
    /// when the iterator runs out before that.
    pub fn start_download(&mut self) -> (r: Vec<ChunkInfo>)
        requires
            old(self).wf(),
            next_chunks(
                old(self).chunk_iter.data.remaining.chunk_len(),
                data_state(old(self).chunk_iter.data),
                old(self).connection_count as nat,
            ).1.0 <= usize::MAX,
        ensures
            final(self).wf(),
            r@.len() <= old(self).connection_count,
            final(self).is_download_finished == (old(self).is_download_finished || r@.len()
                < old(self).connection_count),
            final(self).downloading() == with_chunks(old(self).downloading(), r@),
            (r@, data_state(final(self).chunk_iter.data)) == next_chunks(
                old(self).chunk_iter.data.remaining.chunk_len(),
                data_state(old(self).chunk_iter.data),
                old(self).connection_count as nat,
            ),
            final(self).chunk_iter.data.remaining.chunk_len() == old(self).chunk_iter.data.remaining.chunk_len(),
            old(self).chunk_iter.data.spec_remaining_len() == final(self).chunk_iter.data.spec_remaining_len()
                + total_len(ranges_of(r@)),
            final(self).chunk_iter.data.iter_count <= old(self).chunk_iter.data.iter_count + r@.len(),
            final(self).connection_count == old(self).connection_count,
            final(self).downloading().len() <= old(self).downloading().len() + r@.len(),
            old(self).downloading().len() == 0 ==> final(self).within_connections(),
    {
        let mut started: Vec<ChunkInfo> = Vec::new();
        let mut exhausted = false;
        let ghost old_map = self.downloading();
        let ghost old_data = self.chunk_iter.data;
        let ghost old_finished = self.is_download_finished;
        let cc = self.connection_count;
        while started.len() < cc as usize && !exhausted
            invariant
                self.wf(),
                self.connection_count == cc,
                started@.len() <= cc,
                exhausted ==> started@.len() < cc,
                self.is_download_finished == (old_finished || exhausted),
                self.chunk_iter.data.iter_count <= old_data.iter_count + started@.len(),
                !exhausted ==> next_chunks(
                    old_data.remaining.chunk_len(),
                    data_state(self.chunk_iter.data),
                    (cc - started@.len()) as nat,
                ).1.0 <= usize::MAX,
                self.downloading() == with_chunks(old_map, started@),
                old_data.spec_remaining_len() == self.chunk_iter.data.spec_remaining_len() + total_len(
                    ranges_of(started@),
                ),
                self.chunk_iter.data.remaining.chunk_len() == old_data.remaining.chunk_len(),
                !exhausted ==> next_chunks(old_data.remaining.chunk_len(), data_state(old_data), cc as nat) == (
                    started@ + next_chunks(
                        old_data.remaining.chunk_len(),
                        data_state(self.chunk_iter.data),
                        (cc - started@.len()) as nat,
                    ).0,
                    next_chunks(
                        old_data.remaining.chunk_len(),
                        data_state(self.chunk_iter.data),
                        (cc - started@.len()) as nat,
                    ).1,
                ),
                exhausted ==> next_chunks(old_data.remaining.chunk_len(), data_state(old_data), cc as nat) == (
                    started@,
                    data_state(self.chunk_iter.data),
                ),
            decreases cc - started@.len(), if exhausted { 0int } else { 1int },
        {
            let ghost before = self.chunk_iter.data;
            let ghost k = (cc - started@.len()) as nat;
            proof {
                lemma_next_chunks_count(old_data.remaining.chunk_len(), data_state(self.chunk_iter.data), k);
            }
            let next = self.download_next_chunk();
            proof {
                lemma_next_step_is_next_chunk(before, self.chunk_iter.data, next);
                assert(started@ + Seq::<ChunkInfo>::empty() =~= started@);
            }
            match next {
                None => {
                    self.is_download_finished = true;
                    exhausted = true;
                },
                Some(c) => {
                    proof {
                        let cs = old_data.remaining.chunk_len();
                        let rest = next_chunks(cs, data_state(self.chunk_iter.data), (k - 1) as nat);
                        assert(started@ + (seq![c] + rest.0) =~= started@.push(c) + rest.0);
                        lemma_next_keeps_remaining_len(before, self.chunk_iter.data, Some(c));
                        assert(ranges_of(started@.push(c)).drop_last() =~= ranges_of(started@));
                        assert(started@.push(c).drop_last() =~= started@);
                    }
                    started.push(c);
                },
            }
        }
        proof {
            lemma_with_chunks_len(old_map, started@);
        }
        started
    }

    /// The download loop's decision when the chunk `chunk_index` ended: it stops
    /// being downloading; a finished chunk is followed by the next one, or the
    /// download finishes once no chunk is left and none is downloading; a paused or
    /// cancelled chunk ends the download for that reason; a failed one aborts it.
    pub fn on_chunk_end(&mut self, chunk_index: usize, outcome: ChunkOutcome) -> (r: DownloadStep)
        requires
            old(self).wf(),
            outcome == ChunkOutcome::Ended(DownloadEndCause::Finished) ==> old(self).can_number_next(),
        ensures
            final(self).wf(),
            final(self).connection_count == old(self).connection_count,
            ({
                let left = old(self).downloading().remove(chunk_index);
                match outcome {
                    ChunkOutcome::Ended(DownloadEndCause::Finished) => if old(self).is_download_finished
                        && left.len() == 0 {
                        &&& r == DownloadStep::Stop(DownloadEndCause::Finished)
                        &&& final(self).downloading() == left
                        &&& final(self).chunk_iter == old(self).chunk_iter
                        &&& final(self).is_download_finished
                    } else {
                        let (c, after) = next_chunk(
                            old(self).chunk_iter.data.remaining.chunk_len(),
                            data_state(old(self).chunk_iter.data),
                        );
                        &&& data_state(final(self).chunk_iter.data) == after
                        &&& final(self).chunk_iter.data.remaining.chunk_len()
                            == old(self).chunk_iter.data.remaining.chunk_len()
                        &&& match c {
                            Some(x) => {
                                &&& r == DownloadStep::Start(x)
                                &&& final(self).downloading() == left.insert(x.index, x)
                                &&& final(self).is_download_finished == old(self).is_download_finished
                            },
                            None => {
                                &&& r == if left.len() == 0 {
                                    DownloadStep::Stop(DownloadEndCause::Finished)
                                } else {
                                    DownloadStep::Wait
                                }
                                &&& final(self).downloading() == left
                                &&& final(self).is_download_finished
                            },
                        }
                    },
                    ChunkOutcome::Ended(cause) => {
                        &&& r == DownloadStep::Stop(cause)
                        &&& final(self).downloading() == left
                        &&& final(self).chunk_iter == old(self).chunk_iter
                        &&& final(self).is_download_finished == old(self).is_download_finished
                    },
                    ChunkOutcome::Failed => {
                        &&& r == DownloadStep::Abort
                        &&& final(self).downloading() == left
                        &&& final(self).chunk_iter == old(self).chunk_iter
                        &&& final(self).is_download_finished == old(self).is_download_finished
                    },
                }
            }),
            old(self).within_connections() && old(self).downloading().contains_key(chunk_index)
                ==> final(self).within_connections(),
            r == DownloadStep::Stop(DownloadEndCause::Finished) ==> {
                &&& final(self).downloading().len() == 0
                &&& final(self).chunk_iter.data.remaining@.len() == 0
                &&& final(self).chunk_iter.data.last_incomplete_chunks@.len() == 0
            },
    {
        let downloading_count = self.remove_downloading_chunk(chunk_index);
        match outcome {
            ChunkOutcome::Ended(DownloadEndCause::Finished) => {
                if self.is_download_finished && downloading_count == 0 {
                    return DownloadStep::Stop(DownloadEndCause::Finished);
                }
                let ghost before = self.chunk_iter.data;
                let next = self.download_next_chunk();
                proof {
                    lemma_next_step_is_next_chunk(before, self.chunk_iter.data, next);
                }
                match next {
                    None => {
                        self.is_download_finished = true;
                        if downloading_count == 0 {
                            DownloadStep::Stop(DownloadEndCause::Finished)
                        } else {
                            DownloadStep::Wait
                        }
                    },
                    Some(chunk) => DownloadStep::Start(chunk),
                }
            },
            ChunkOutcome::Ended(DownloadEndCause::Cancelled) => DownloadStep::Stop(DownloadEndCause::Cancelled),
            ChunkOutcome::Ended(DownloadEndCause::Paused) => DownloadStep::Stop(DownloadEndCause::Paused),
            ChunkOutcome::Failed => DownloadStep::Abort,
        }
    }

    /// The chunks downloading now, ordered by the start of their ranges.
    pub fn get_downloading_chunks(&self) -> (r: Vec<ChunkInfo>)
        requires
            self.wf(),
        ensures
            sorted_by_start(r@),
            forall|i: int, j: int| 0 <= i <= j < r@.len() ==> r@[i].range.start <= r@[j].range.start,
            lists_chunks(r@, self.downloading()),
    {
        let ghost m = self.downloading();
        let mut chunks: Vec<ChunkInfo> = Vec::new();
        for k in it: self.downloading_chunks.keys()
            invariant
                self.wf(),
                m == self.downloading(),
                it.seq().unref().to_set() == m.dom(),
                it.seq().unref().no_duplicates(),
                it.seq().len() == m.dom().len(),
                chunks@.len() == it.index(),
                forall|i: int|
                    0 <= i < chunks@.len() ==> {
                        &&& (#[trigger] chunks@[i]).index == it.seq().unref()[i]
                        &&& m.contains_key(chunks@[i].index)
                        &&& m[chunks@[i].index] == chunks@[i]
                    },
                forall|i: int, j: int|
                    0 <= i < j < chunks@.len() ==> (#[trigger] chunks@[i]).index != (#[trigger] chunks@[j]).index,
                it.index() == it.seq().len() ==> forall|x: usize| #[trigger]
                    m.contains_key(x) ==> exists|i: int| 0 <= i < chunks@.len() && (#[trigger] chunks@[i]).index == x,
        {
            proof {
                assert(it.seq().unref()[it.index() as int] == *k);
                assert(it.seq().unref().contains(*k));
                assert(m.dom().contains(*k));
            }
            match self.downloading_chunks.get(k) {
                Some(c) => chunks.push(*c),
                None => {},
            }
            proof {
                assert forall|i: int, j: int| 0 <= i < j < chunks@.len() implies (#[trigger] chunks@[i]).index
                    != (#[trigger] chunks@[j]).index by {
                    assert(chunks@[i].index == it.seq().unref()[i]);
                    assert(chunks@[j].index == it.seq().unref()[j]);
                }
                assert forall|x: usize| it.index() + 1 == it.seq().len() && #[trigger] m.contains_key(x) implies exists|i: int|
                    0 <= i < chunks@.len() && (#[trigger] chunks@[i]).index == x by {
                    assert(it.seq().unref().to_set().contains(x));
                    lemma_index_listed(it.seq().unref(), chunks@, x);
                }
            }
        }
        let sorted = sort_by_start(chunks);
        proof {
            lemma_permutation_lists_chunks(chunks@, sorted@, m);
        }
        sorted
    }
}

/// Filing `s` into a finite map adds at most `s.len()` entries.
proof fn lemma_with_chunks_len(m: Map<usize, ChunkInfo>, s: Seq<ChunkInfo>)
    requires
        m.dom().finite(),
    ensures
        with_chunks(m, s).dom().finite(),
        with_chunks(m, s).len() <= m.len() + s.len(),
    decreases s.len(),
{
    if s.len() > 0 {
        lemma_with_chunks_len(m, s.drop_last());
    }
}

/// A key of `keys` is the index of the chunk at the same place in `chunks`.
proof fn lemma_index_listed(keys: Seq<usize>, chunks: Seq<ChunkInfo>, x: usize)
    requires
        keys.contains(x),
        keys.len() == chunks.len(),
        forall|i: int| 0 <= i < chunks.len() ==> (#[trigger] chunks[i]).index == keys[i],
    ensures
        exists|i: int| 0 <= i < chunks.len() && (#[trigger] chunks[i]).index == x,
{
    let i = choose|i: int| 0 <= i < keys.len() && keys[i] == x;
    assert(chunks[i].index == x);
}

/// `r` lists the chunks of `m`, each once: as many as `m` holds, each filed in
/// `m` under its own index, no index twice, and every index of `m` there.
pub open spec fn lists_chunks(r: Seq<ChunkInfo>, m: Map<usize, ChunkInfo>) -> bool {
    &&& r.len() == m.len()
    &&& forall|i: int| 0 <= i < r.len() ==> m.contains_key((#[trigger] r[i]).index) && m[r[i].index] == r[i]
    &&& forall|i: int, j: int| 0 <= i < j < r.len() ==> (#[trigger] r[i]).index != (#[trigger] r[j]).index
    &&& forall|k: usize| #[trigger] m.contains_key(k) ==> exists|i: int| 0 <= i < r.len() && (#[trigger] r[i]).index == k
}

/// Reordering a listing of the chunks of `m` gives a listing of them again.
proof fn lemma_permutation_lists_chunks(a: Seq<ChunkInfo>, b: Seq<ChunkInfo>, m: Map<usize, ChunkInfo>)
    requires
        a.to_multiset() == b.to_multiset(),
        a.len() == m.dom().len(),
        forall|i: int| 0 <= i < a.len() ==> m.contains_key((#[trigger] a[i]).index) && m[a[i].index] == a[i],
        forall|i: int, j: int| 0 <= i < j < a.len() ==> (#[trigger] a[i]).index != (#[trigger] a[j]).index,
        forall|k: usize| #[trigger] m.contains_key(k) ==> exists|i: int| 0 <= i < a.len() && (#[trigger] a[i]).index == k,
    ensures
        lists_chunks(b, m),
{
    vstd::seq_lib::to_multiset_len(a);
    vstd::seq_lib::to_multiset_len(b);
    assert(a.no_duplicates()) by {
        assert forall|i: int, j: int| 0 <= i < a.len() && 0 <= j < a.len() && i != j implies a[i] != a[j] by {
            if i < j {
                assert(a[i].index != a[j].index);
            } else {
                assert(a[j].index != a[i].index);
            }
        }
    }
    a.lemma_multiset_has_no_duplicates();
    b.lemma_multiset_has_no_duplicates_conv();
    assert forall|i: int| 0 <= i < b.len() implies m.contains_key((#[trigger] b[i]).index) && m[b[i].index] == b[i] by {
        assert(b.contains(b[i]));
        assert(b.to_multiset().count(b[i]) > 0);
        assert(a.contains(b[i]));
        let j = choose|j: int| 0 <= j < a.len() && a[j] == b[i];
        assert(m.contains_key(a[j].index));
    }
    assert forall|i: int, j: int| 0 <= i < j < b.len() implies (#[trigger] b[i]).index != (#[trigger] b[j]).index by {
        if b[i].index == b[j].index {
            assert(m[b[i].index] == b[i]);
            assert(m[b[j].index] == b[j]);
            assert(b[i] != b[j]);
        }
    }
    assert forall|k: usize| #[trigger] m.contains_key(k) implies exists|i: int| 0 <= i < b.len() && (#[trigger] b[i]).index
        == k by {
        let j = choose|j: int| 0 <= j < a.len() && (#[trigger] a[j]).index == k;
        assert(a.contains(a[j]));
        assert(a.to_multiset().count(a[j]) > 0);
        assert(b.contains(a[j]));
        let i = choose|i: int| 0 <= i < b.len() && b[i] == a[j];
        assert(b[i].index == k);
    }
}

/// Handing out chunks never lowers the count of chunks handed out, and a new
/// chunk raises it.
proof fn lemma_next_chunks_count(chunk_size: nat, state: (int, Seq<ChunkRange>, Seq<ChunkInfo>), n: nat)
    ensures
        next_chunks(chunk_size, state, n).1.0 >= state.0,
        n > 0 && state.2.len() == 0 && take_chunk(chunk_size, state.1).0 is Some ==> next_chunks(
            chunk_size,
            state,
            n,
        ).1.0 >= state.0 + 1,
    decreases n,
{
    if n > 0 {
        let next = next_chunk(chunk_size, state);
        lemma_next_chunks_count(chunk_size, next.1, (n - 1) as nat);
    }
}

/// Stable insertion sort of chunks by the start of their ranges.
fn sort_by_start(chunks: Vec<ChunkInfo>) -> (r: Vec<ChunkInfo>)
    ensures
        sorted_by_start(r@),
        r@.to_multiset() == chunks@.to_multiset(),
{
    let mut sorted: Vec<ChunkInfo> = Vec::new();
    let mut i: usize = 0;
    while i < chunks.len()
        invariant
            0 <= i <= chunks@.len(),
            sorted_by_start(sorted@),
            sorted@.to_multiset() == chunks@.take(i as int).to_multiset(),
        decreases chunks@.len() - i,
    {
        let c = chunks[i];
        let mut j: usize = 0;
        while j < sorted.len() && sorted[j].range.start <= c.range.start
            invariant
                0 <= j <= sorted@.len(),
                forall|k: int| 0 <= k < j ==> (#[trigger] sorted@[k]).range.start <= c.range.start,
            decreases sorted@.len() - j,
        {
            j = j + 1;
        }
        let ghost before = sorted@;
        sorted.insert(j, c);
        proof {
            assert(chunks@.take(i + 1) =~= chunks@.take(i as int).push(c));
            assert forall|a: int, b: int| 0 <= a <= b < sorted@.len() implies (#[trigger] sorted@[a]).range.start
                <= (#[trigger] sorted@[b]).range.start by {
                if j < before.len() {
                    assert(before[j as int].range.start > c.range.start);
                }
                if a < j && b > j {
                    assert(sorted@[a] == before[a]);
                    assert(sorted@[b] == before[b - 1]);
                } else if a < j && b < j {
                    assert(sorted@[a] == before[a]);
                    assert(sorted@[b] == before[b]);
                } else if a > j {
                    assert(sorted@[a] == before[a - 1]);
                    assert(sorted@[b] == before[b - 1]);
                } else if a == j && b > j {
                    assert(sorted@[b] == before[b - 1]);
                    assert(before[j as int].range.start <= before[b - 1].range.start);
                } else if a < j && b == j {
                    assert(sorted@[a] == before[a]);
                }
            }
        }
        i = i + 1;
    }
    assert(chunks@.take(chunks@.len() as int) =~= chunks@);
    sorted
}

/// Law: filing chunks into the downloading map keeps every entry of the map
/// whose index none of them has, and files each chunk under its own index, the
/// last one of an index winning; nothing else enters.
pub proof fn lemma_with_chunks_files_each(m: Map<usize, ChunkInfo>, s: Seq<ChunkInfo>)
    ensures
        forall|k: usize|
            #[trigger] with_chunks(m, s).contains_key(k) <==> (m.contains_key(k) || exists|i: int|
                0 <= i < s.len() && (#[trigger] s[i]).index == k),
        forall|k: usize|
            m.contains_key(k) && (forall|i: int| 0 <= i < s.len() ==> (#[trigger] s[i]).index != k) ==> #[trigger] with_chunks(
                m,
                s,
            )[k] == m[k],
        forall|i: int|
            0 <= i < s.len() && (forall|j: int| i < j < s.len() ==> (#[trigger] s[j]).index != s[i].index)
                ==> #[trigger] with_chunks(m, s)[s[i].index] == s[i],
    decreases s.len(),
{
    if s.len() > 0 {
        let p = s.drop_last();
        lemma_with_chunks_files_each(m, p);
        let n = s.len() - 1;
        assert forall|k: usize| #[trigger] with_chunks(m, s).contains_key(k) <==> (m.contains_key(k) || exists|i: int|
            0 <= i < s.len() && (#[trigger] s[i]).index == k) by {
            if with_chunks(m, p).contains_key(k) && !m.contains_key(k) {
                let i = choose|i: int| 0 <= i < p.len() && (#[trigger] p[i]).index == k;
                assert(s[i] == p[i]);
            }
            if exists|i: int| 0 <= i < s.len() && (#[trigger] s[i]).index == k {
                let i = choose|i: int| 0 <= i < s.len() && (#[trigger] s[i]).index == k;
                if i < n {
                    assert(p[i] == s[i]);
                } else {
                    assert(s.last() == s[n]);
                }
            }
        }
        assert forall|k: usize|
            m.contains_key(k) && (forall|i: int| 0 <= i < s.len() ==> (#[trigger] s[i]).index != k) implies #[trigger] with_chunks(
                m,
                s,
            )[k] == m[k] by {
            assert(s.last() == s[n]);
            assert forall|i: int| 0 <= i < p.len() implies (#[trigger] p[i]).index != k by {
                assert(p[i] == s[i]);
            }
            assert(s[n].index != k);
            assert(with_chunks(m, p).contains_key(k));
            assert(with_chunks(m, p)[k] == m[k]);
        }
        assert forall|i: int|
            0 <= i < s.len() && (forall|j: int| i < j < s.len() ==> (#[trigger] s[j]).index != s[i].index)
                implies #[trigger] with_chunks(m, s)[s[i].index] == s[i] by {
            assert(s.last() == s[n]);
            if i < n {
                assert(p[i] == s[i]);
                assert forall|j: int| i < j < p.len() implies (#[trigger] p[j]).index != p[i].index by {
                    assert(p[j] == s[j]);
                }
                assert(s[n].index != s[i].index);
                assert(with_chunks(m, p).contains_key(p[i].index));
                assert(with_chunks(m, p)[p[i].index] == p[i]);
            }
        }
    }
}

} // verus!
