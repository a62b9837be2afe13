use dlmgr::server::ZeroBody;

#[test]
fn zero_body_reads_in_blocks() {
    let mut b = ZeroBody::new(100_000);
    assert_eq!(b.byte_size(), 100_000);
    assert_eq!(b.read_len(), 32768);
    b.start_seek(99_000);
    assert_eq!(b.read_len(), 1000);
    b.start_seek(100_000);
    assert_eq!(b.read_len(), 0);
    b.start_seek(200_000);
    assert_eq!(b.read_len(), 0);
}
