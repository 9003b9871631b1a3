use file_downloader::download::chunk_range::{ChunkData, ChunkInfo, ChunkRange, ChunkRangeIterator, RemainingChunks};
use file_downloader::downloader::chunk_iterator::{ChunkIterator, ChunkIteratorData, RemainingChunks as SplitRanges};
use file_downloader::downloader::chunk_range::ChunkRange as SplitRange;
use headers::HeaderMapExt;

fn create_iter() -> ChunkRangeIterator {
    let chunk_size: usize = 100;
    let test_length = chunk_size * 3;
    let chunk_data = ChunkData::new(chunk_size, test_length as u64);
    ChunkRangeIterator::new(chunk_data)
}

#[test]
fn should_be_next() {
    let mut iter = create_iter();

    let next = iter.next();
    assert!(next.is_some());
    let next = next.unwrap();
    assert_eq!(next.index, 1);
    assert_eq!(next.range, ChunkRange::from_len(0, 100));

    let next = iter.next();
    assert!(next.is_some());
    let next = next.unwrap();
    assert_eq!(next.index, 2);
    assert_eq!(next.range, ChunkRange::from_len(100, 100));

    let next = iter.next();
    assert!(next.is_some());
    let next = next.unwrap();
    assert_eq!(next.index, 3);
    assert_eq!(next.range, ChunkRange::from_len(200, 100));

    assert!(iter.next().is_none());
}

#[test]
fn remaining_should_be_next() {
    let chunk_size: usize = 100;
    let file_size = 100 * 3;
    let mut remaining = SplitRanges::new(chunk_size, file_size);

    let range = remaining.take_range().unwrap();
    assert_eq!(range, SplitRange::new(0, 99));

    let range = remaining.take_range().unwrap();
    assert_eq!(range, SplitRange::new(100, 199));

    let range = remaining.take_range().unwrap();
    println!("{:?}", range.len());
    assert_eq!(range, SplitRange::new(200, 299));

    let range = remaining.take_range();
    assert!(range.is_none());

    assert!(remaining.ranges().is_empty());
}

#[test]
fn range_len_and_from_len_agree() {
    let r = ChunkRange::from_len(10, 5);
    assert_eq!(r, ChunkRange::new(10, 14));
    assert_eq!(r.len(), 5);
    assert_eq!(ChunkRange::new(7, 7).len(), 1);
    assert_eq!(SplitRange::from_len(0, 1), SplitRange::new(0, 0));
    assert_eq!(SplitRange::new(3, 12).len(), 10);
}

#[test]
fn from_len_zero_is_the_empty_range_before_start() {
    assert_eq!(ChunkRange::from_len(5, 0), ChunkRange::new(5, 4));
}

#[test]
fn clone_with_offset_keeps_end() {
    let r = SplitRange::new(100, 199);
    let rest = r.clone_with_offset(40);
    assert_eq!(rest, SplitRange::new(140, 199));
    assert_eq!(rest.len(), 60);
}

fn header_text(range: headers::Range) -> String {
    let mut map = headers::HeaderMap::new();
    map.typed_insert(range);
    map.get("range").unwrap().to_str().unwrap().to_string()
}

#[test]
fn range_header_names_the_range() {
    let h = ChunkRange::new(0, 99).to_range_header();
    assert_eq!(h, headers::Range::bytes(0..=99).unwrap());
    assert_ne!(h, headers::Range::bytes(0..=100).unwrap());
    assert_eq!(header_text(h), "bytes=0-99");
    assert_eq!(header_text(SplitRange::new(4194304, 8388607).to_range_header()), "bytes=4194304-8388607");
}

#[test]
fn last_chunk_is_shorter() {
    let mut remaining = RemainingChunks::new(100, 250);
    assert_eq!(remaining.next(), Some(ChunkRange::new(0, 99)));
    assert_eq!(remaining.next(), Some(ChunkRange::new(100, 199)));
    assert_eq!(remaining.next(), Some(ChunkRange::new(200, 249)));
    assert_eq!(remaining.next(), None);
    assert_eq!(remaining.next(), None);
    assert!(remaining.ranges().is_empty());
}

#[test]
fn content_smaller_than_a_chunk_is_one_chunk() {
    let mut remaining = RemainingChunks::new(1024, 1);
    assert_eq!(remaining.ranges(), &vec![ChunkRange::new(0, 0)]);
    assert_eq!(remaining.next(), Some(ChunkRange::new(0, 0)));
    assert_eq!(remaining.next(), None);
}

#[test]
fn remaining_len_drops_by_each_chunk() {
    let mut data = ChunkData::new(100, 250);
    assert_eq!(data.remaining_len(), 250);
    let c = data.next().unwrap();
    assert_eq!(c.range.len(), 100);
    assert_eq!(data.remaining_len(), 150);
    data.next().unwrap();
    let last = data.next().unwrap();
    assert_eq!(last, ChunkInfo { index: 3, range: ChunkRange::new(200, 249) });
    assert_eq!(data.remaining_len(), 0);
    assert!(data.next().is_none());
    assert_eq!(data.iter_count, 3);
}

#[test]
fn interrupted_chunks_come_first_last_one_first() {
    let mut data = ChunkData::new(100, 300);
    data.last_incomplete_chunks.push(ChunkInfo { index: 7, range: ChunkRange::new(10, 19) });
    data.last_incomplete_chunks.push(ChunkInfo { index: 8, range: ChunkRange::new(50, 59) });
    assert_eq!(data.remaining_len(), 320);
    assert_eq!(data.next(), Some(ChunkInfo { index: 8, range: ChunkRange::new(50, 59) }));
    assert_eq!(data.next(), Some(ChunkInfo { index: 7, range: ChunkRange::new(10, 19) }));
    assert_eq!(data.iter_count, 0);
    assert_eq!(data.next(), Some(ChunkInfo { index: 1, range: ChunkRange::new(0, 99) }));
    assert_eq!(data.remaining_len(), 200);
}

#[test]
fn iterator_data_numbers_chunks() {
    let remaining = SplitRanges::new(4, 10);
    let data = ChunkIteratorData { iter_count: 0, remaining };
    assert_eq!(data.remaining_len(), 10);
    let mut iter = ChunkIterator::new(data);
    let a = iter.next().unwrap();
    assert_eq!((a.index, a.range), (1, SplitRange::new(0, 3)));
    let b = iter.next().unwrap();
    assert_eq!((b.index, b.range), (2, SplitRange::new(4, 7)));
    assert_eq!(iter.data.remaining_len(), 2);
    let c = iter.next().unwrap();
    assert_eq!((c.index, c.range), (3, SplitRange::new(8, 9)));
    assert!(iter.next().is_none());
    assert_eq!(iter.data.iter_count, 3);
}

#[test]
fn chunks_tile_the_content() {
    let chunk_size: u64 = 7;
    let content_length: u64 = 40;
    let mut remaining = RemainingChunks::new(chunk_size as usize, content_length);
    let mut i: u64 = 0;
    while let Some(c) = remaining.next() {
        assert_eq!(c.start, i * chunk_size);
        assert_eq!(c.end + 1, ((i + 1) * chunk_size).min(content_length));
        i += 1;
    }
    assert_eq!(i, 6);
}

#[test]
fn take_range_cuts_in_order_then_stops() {
    let mut remaining = SplitRanges::new(100, 250);
    assert_eq!(remaining.take_range(), Some(SplitRange::new(0, 99)));
    assert_eq!(remaining.take_range(), Some(SplitRange::new(100, 199)));
    assert_eq!(remaining.take_range(), Some(SplitRange::new(200, 249)));
    assert_eq!(remaining.take_range(), None);
    assert_eq!(remaining.take_range(), None);
    assert!(remaining.ranges().is_empty());
}

#[test]
fn next_chunk_range_counts_what_it_hands_out() {
    let mut data = ChunkIteratorData { iter_count: 5, remaining: SplitRanges::new(3, 7) };
    let indices: Vec<usize> = (0..5).filter_map(|_| data.next_chunk_range()).map(|c| c.index).collect();
    assert_eq!(indices, vec![6, 7, 8]);
    assert_eq!(data.iter_count, 8);
}
