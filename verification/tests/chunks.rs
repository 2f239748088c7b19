use squid::chunks::{
    Arrival, ArrivalOutcome, ChunkPlan, ChunkRange, Reassembly, ReceivedChunk, SequentialDownload, SequentialStep,
};
use squid::download::{Error, Message};

fn range(index: u64, start: u64, end: u64) -> ChunkRange {
    ChunkRange { index, start, end }
}

#[test]
fn ranges_cover_the_content_in_order() {
    let plan = ChunkPlan::new(2500, 1000);
    assert_eq!(plan.chunk_count(), 3);
    assert_eq!(plan.ranges(), vec![range(0, 0, 999), range(1, 1000, 1999), range(2, 2000, 2499)]);
}

#[test]
fn ranges_of_an_exact_multiple() {
    let plan = ChunkPlan::new(3000, 1000);
    assert_eq!(plan.chunk_count(), 3);
    assert_eq!(plan.ranges(), vec![range(0, 0, 999), range(1, 1000, 1999), range(2, 2000, 2999)]);
}

#[test]
fn whole_content_is_one_chunk() {
    let plan = ChunkPlan::new(7, 7);
    assert_eq!(plan.ranges(), vec![range(0, 0, 6)]);
    assert_eq!(plan.requested_byte_range(&range(0, 0, 6)), None);
}

#[test]
fn chunk_count_rounds_up() {
    assert_eq!(ChunkPlan::new(1, 1000).chunk_count(), 1);
    assert_eq!(ChunkPlan::new(1001, 1000).chunk_count(), 2);
    assert_eq!(ChunkPlan::new(u64::MAX, u64::MAX / 2).chunk_count(), 3);
}

#[test]
fn ranges_near_the_largest_content() {
    let plan = ChunkPlan::new(u64::MAX, 1 << 63);
    assert_eq!(plan.ranges(), vec![range(0, 0, (1 << 63) - 1), range(1, 1 << 63, u64::MAX - 1)]);
}

#[test]
fn requested_byte_range_of_parts() {
    let plan = ChunkPlan::new(2500, 1000);
    assert_eq!(plan.requested_byte_range(&range(0, 0, 999)), Some((0, 999)));
    assert_eq!(plan.requested_byte_range(&range(2, 2000, 2499)), Some((2000, 2499)));
}

#[test]
fn messages_of_a_chunk() {
    let r = range(4, 10, 19);
    assert_eq!(r.received_message(), Message::ReceivedChunk { index: 4, content_byte_range: 10..20 });
    assert_eq!(r.wrote_message(10), Message::WroteChunk { index: 4, byte_count: 10 });
}

#[test]
fn response_length_is_checked() {
    let r = range(1, 1000, 1999);
    assert_eq!(r.check_response_length(1000), Ok(()));
    assert_eq!(
        r.check_response_length(999),
        Err(Error::UnexpectedResponseLength { expected: 1000, actual: 999 })
    );
}

fn chunk(index: u64) -> ReceivedChunk {
    ReceivedChunk { range: range(index, index * 10, index * 10 + 9), bytes: vec![index as u8; 10] }
}

/// Feeds the chunks in `order` and returns the indices handed out for writing.
fn reassemble(order: &[u64]) -> (Vec<u64>, Reassembly) {
    let mut reassembly = Reassembly::new(order.len() as u64);
    let mut written = Vec::new();
    for &index in order {
        let (message, ready) = reassembly.receive(chunk(index));
        assert_eq!(
            message,
            Message::ReceivedChunk { index, content_byte_range: index * 10..index * 10 + 10 }
        );
        for c in ready {
            assert_eq!(c.bytes, vec![c.range.index as u8; 10]);
            written.push(c.range.index);
        }
    }
    (written, reassembly)
}

#[test]
fn chunks_in_any_order_are_written_in_order() {
    for order in [[0, 1, 2, 3], [3, 2, 1, 0], [2, 0, 3, 1], [1, 3, 0, 2]] {
        let (written, reassembly) = reassemble(&order);
        assert_eq!(written, vec![0, 1, 2, 3]);
        assert!(reassembly.is_complete());
        assert_eq!(reassembly.next_chunk_index(), 4);
    }
}

#[test]
fn chunks_are_held_until_the_gap_closes() {
    let mut reassembly = Reassembly::new(3);
    let (_, ready) = reassembly.receive(chunk(2));
    assert!(ready.is_empty());
    let (_, ready) = reassembly.receive(chunk(1));
    assert!(ready.is_empty());
    assert!(!reassembly.is_complete());
    let (_, ready) = reassembly.receive(chunk(0));
    assert_eq!(ready.iter().map(|c| c.range.index).collect::<Vec<_>>(), vec![0, 1, 2]);
    assert!(reassembly.is_complete());
}

#[test]
fn empty_reassembly_is_complete() {
    assert!(Reassembly::new(0).is_complete());
}

#[test]
fn sequential_download_walks_the_chunks() {
    let mut download = SequentialDownload::new(ChunkPlan::new(25, 10));
    let mut fetched = Vec::new();
    while let SequentialStep::Fetch { range, requested } = download.next_step() {
        fetched.push((range, requested));
        let length = range.end - range.start + 1;
        let (message, checked) = download.fetched(length);
        assert_eq!(
            message,
            Message::ReceivedChunk { index: range.index, content_byte_range: range.start..range.end + 1 }
        );
        assert_eq!(checked, Ok(()));
        assert_eq!(download.written(length), Message::WroteChunk { index: range.index, byte_count: length });
    }
    assert_eq!(
        fetched,
        vec![
            (range(0, 0, 9), Some((0, 9))),
            (range(1, 10, 19), Some((10, 19))),
            (range(2, 20, 24), Some((20, 24))),
        ]
    );
}

#[test]
fn sequential_download_of_one_chunk_asks_for_everything() {
    let download = SequentialDownload::new(ChunkPlan::new(25, 25));
    assert_eq!(download.next_step(), SequentialStep::Fetch { range: range(0, 0, 24), requested: None });
}

#[test]
fn sequential_download_rejects_a_short_chunk() {
    let download = SequentialDownload::new(ChunkPlan::new(25, 10));
    assert_eq!(
        download.fetched(7).1,
        Err(Error::UnexpectedResponseLength { expected: 10, actual: 7 })
    );
}

#[test]
fn concurrent_and_sequential_write_the_same_chunks_in_the_same_order() {
    let plan = ChunkPlan::new(25, 10);
    let mut sequential = Vec::new();
    let mut download = SequentialDownload::new(ChunkPlan::new(25, 10));
    while let SequentialStep::Fetch { range, .. } = download.next_step() {
        sequential.push(range);
        download.written(range.end - range.start + 1);
    }
    let content: Vec<u8> = (0..25).collect();
    let ranges = plan.ranges();
    for order in [[0, 1, 2], [2, 1, 0], [1, 2, 0], [2, 0, 1]] {
        let mut reassembly = Reassembly::new(plan.chunk_count());
        let mut written = Vec::new();
        let mut file = Vec::new();
        for &index in &order {
            let r = ranges[index as usize];
            let bytes = content[r.start as usize..=r.end as usize].to_vec();
            let (_, ready) = reassembly.receive(ReceivedChunk { range: r, bytes });
            for c in ready {
                written.push(c.range);
                file.extend(c.bytes);
            }
        }
        assert_eq!(written, sequential);
        assert_eq!(file, content);
    }
}

#[test]
fn arrivals_are_decided() {
    let mut reassembly = Reassembly::new(2);
    match reassembly.take(Arrival::Chunk(chunk(1))) {
        ArrivalOutcome::Write(message, ready) => {
            assert_eq!(message, Message::ReceivedChunk { index: 1, content_byte_range: 10..20 });
            assert!(ready.is_empty());
        }
        ArrivalOutcome::Abort(e) => panic!("unexpected abort: {:?}", e),
    }
    match reassembly.take(Arrival::Chunk(chunk(5))) {
        ArrivalOutcome::Abort(e) => assert_eq!(e, Error::Internal),
        _ => panic!("a chunk beyond the last must abort"),
    }
    match reassembly.take(Arrival::Failed(Error::UnexpectedResponseLength { expected: 10, actual: 3 })) {
        ArrivalOutcome::Abort(e) => {
            assert_eq!(e, Error::UnexpectedResponseLength { expected: 10, actual: 3 })
        }
        _ => panic!("a failure must abort"),
    }
    match reassembly.take(Arrival::WorkersGone) {
        ArrivalOutcome::Abort(e) => assert_eq!(e, Error::Internal),
        _ => panic!("no workers left must abort"),
    }
    match reassembly.take(Arrival::Chunk(chunk(0))) {
        ArrivalOutcome::Write(_, ready) => {
            assert_eq!(ready.iter().map(|c| c.range.index).collect::<Vec<_>>(), vec![0, 1]);
        }
        ArrivalOutcome::Abort(e) => panic!("unexpected abort: {:?}", e),
    }
    assert!(reassembly.is_complete());
    match reassembly.take(Arrival::Chunk(chunk(0))) {
        ArrivalOutcome::Abort(e) => assert_eq!(e, Error::Internal),
        _ => panic!("a chunk already written must abort"),
    }
}
