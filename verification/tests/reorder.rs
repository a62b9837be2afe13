use dlmgr::error::ReorderChunkError;
use dlmgr::reorder::ChunkReorderer;

fn bytes(r: &[(Vec<u8>, Option<u32>)]) -> Vec<u8> {
    r.iter().flat_map(|(c, _)| c.iter().copied()).collect()
}

#[test]
fn in_order_chunks_pass_straight_through() {
    let mut r: ChunkReorderer<u32> = ChunkReorderer::new();
    let out = r.on_chunk(0, vec![1, 2, 3], Some(7)).unwrap();
    assert_eq!(out, vec![(vec![1, 2, 3], Some(7))]);
    assert_eq!(r.cached_bytes(), 0);
    let out = r.on_chunk(3, vec![4], None).unwrap();
    assert_eq!(out, vec![(vec![4], None)]);
    assert!(r.finish().is_ok());
}

#[test]
fn early_chunks_wait_for_the_gap() {
    let mut r: ChunkReorderer<u32> = ChunkReorderer::new();
    assert!(r.on_chunk(8, vec![8, 9], Some(2)).unwrap().is_empty());
    assert_eq!(r.cached_bytes(), 10);
    assert!(r.on_chunk(4, vec![4, 5, 6, 7], Some(1)).unwrap().is_empty());
    assert_eq!(r.cached_bytes(), 10);
    let out = r.on_chunk(0, vec![0, 1, 2, 3], Some(0)).unwrap();
    assert_eq!(bytes(&out), (0..10).collect::<Vec<u8>>());
    assert_eq!(out.iter().map(|(_, p)| *p).collect::<Vec<_>>(), vec![Some(0), Some(1), Some(2)]);
    assert_eq!(r.cached_bytes(), 0);
    assert!(r.finish().is_ok());
}

#[test]
fn any_arrival_order_gives_the_file() {
    let file: Vec<u8> = (0..40).collect();
    let order = [3usize, 0, 2, 4, 1];
    let mut r: ChunkReorderer<()> = ChunkReorderer::new();
    let mut got = Vec::new();
    for i in order {
        let chunk = file[i * 8..i * 8 + 8].to_vec();
        got.extend(bytes_unit(&r.on_chunk((i * 8) as u64, chunk, None).unwrap()));
    }
    assert_eq!(got, file);
    assert!(r.finish().is_ok());
}

fn bytes_unit(r: &[(Vec<u8>, Option<()>)]) -> Vec<u8> {
    r.iter().flat_map(|(c, _)| c.iter().copied()).collect()
}

#[test]
fn duplicate_pending_chunk_is_refused() {
    let mut r: ChunkReorderer<()> = ChunkReorderer::new();
    r.on_chunk(8, vec![1], None).unwrap();
    let e = r.on_chunk(8, vec![1], None).unwrap_err();
    assert!(matches!(e, ReorderChunkError::DuplicateChunk(8)));
}

#[test]
fn chunk_behind_the_stream_is_refused() {
    let mut r: ChunkReorderer<()> = ChunkReorderer::new();
    r.on_chunk(0, vec![0; 8], None).unwrap();
    let e = r.on_chunk(2, vec![0; 2], None).unwrap_err();
    assert!(matches!(e, ReorderChunkError::ReceivedUnexpectedChunk(2, 8)));
}

#[test]
fn leftover_chunks_fail_the_finish() {
    let mut r: ChunkReorderer<()> = ChunkReorderer::new();
    r.on_chunk(0, vec![0; 4], None).unwrap();
    r.on_chunk(6, vec![0; 4], None).unwrap();
    r.on_chunk(12, vec![0; 4], None).unwrap();
    assert!(matches!(r.finish(), Err(ReorderChunkError::LeftoverChunks(2))));
}

#[test]
fn empty_chunk_at_the_front_does_not_advance() {
    let mut r: ChunkReorderer<()> = ChunkReorderer::new();
    let out = r.on_chunk(0, vec![], None).unwrap();
    assert_eq!(out.len(), 1);
    let out = r.on_chunk(0, vec![5], None).unwrap();
    assert_eq!(bytes_unit(&out), vec![5]);
    assert!(r.finish().is_ok());
}

#[test]
fn hash_of_reassembled_stream_is_hash_of_file() {
    let file: Vec<u8> = (0..=255u8).cycle().take(1000).collect();
    let mut r: ChunkReorderer<()> = ChunkReorderer::new();
    let mut consumer = dlmgr::consumers::HashingChunkConsumer::new();
    for start in [900usize, 300, 0, 600, 100, 700, 200, 400, 800, 500] {
        let chunk = file[start..start + 100].to_vec();
        for (bytes, _) in r.on_chunk(start as u64, chunk, None).unwrap() {
            consumer.consume_bytes(&bytes);
        }
    }
    assert!(r.finish().is_ok());
    assert_eq!(consumer.finalise().0, dlmgr::hashing::sha256_digest(&file).to_vec());
}

#[test]
fn late_pieces_are_handed_on_whole_with_their_permits() {
    let mut r: ChunkReorderer<u32> = ChunkReorderer::new();
    assert!(r.on_chunk(5, vec![50], Some(5)).unwrap().is_empty());
    assert!(r.on_chunk(3, vec![30, 40], Some(3)).unwrap().is_empty());
    let out = r.on_chunk(0, vec![0, 10, 20], Some(0)).unwrap();
    assert_eq!(
        out,
        vec![(vec![0, 10, 20], Some(0)), (vec![30, 40], Some(3)), (vec![50], Some(5))]
    );
    assert_eq!(r.cached_bytes(), 0);
    assert!(r.finish().is_ok());
}

#[test]
fn overlapping_chunk_is_left_behind() {
    let mut r: ChunkReorderer<()> = ChunkReorderer::new();
    assert!(r.on_chunk(2, vec![9], None).unwrap().is_empty());
    let out = r.on_chunk(0, vec![1, 2, 3], None).unwrap();
    assert_eq!(bytes_unit(&out), vec![1, 2, 3]);
    assert!(matches!(r.finish(), Err(ReorderChunkError::LeftoverChunks(1))));
}

#[test]
fn non_overlapping_chunks_are_all_taken() {
    let mut r: ChunkReorderer<()> = ChunkReorderer::new();
    for (offset, len) in [(6u64, 2usize), (0, 1), (3, 3), (1, 2)] {
        assert!(r.on_chunk(offset, vec![offset as u8; len], None).is_ok());
    }
    assert_eq!(r.cached_bytes(), 0);
    assert!(r.finish().is_ok());
}
