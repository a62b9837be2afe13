use dlmgr::consumers::{HashVerifier, HashingChunkConsumer};
use dlmgr::hashing::{hex_decode, digest_hex, sha256_digest, StreamHasher};

const ABC_SHA256: &str = "ba7816bf8f01cfea414140de5dae2223b00361a396177a9cb410ff61f20015ad";

#[test]
fn digest_of_abc() {
    assert_eq!(digest_hex(&sha256_digest(b"abc")), ABC_SHA256);
}

#[test]
fn pieces_hash_like_the_whole() {
    let mut h = StreamHasher::new();
    h.update(b"a");
    h.update(b"");
    h.update(b"bc");
    assert_eq!(h.finalize(), sha256_digest(b"abc"));
}

#[test]
fn hex_round_trip() {
    assert_eq!(digest_hex(&[0x00, 0x0f, 0xa0, 0xff]), "000fa0ff");
    assert_eq!(hex_decode("000FA0ff").unwrap(), vec![0x00, 0x0f, 0xa0, 0xff]);
    assert!(hex_decode("abc").is_err());
    assert!(hex_decode("zz").is_err());
}

#[test]
fn hashing_consumer_reports_digest() {
    let (mut c, rx) = HashingChunkConsumer::new_with_hash_provider();
    c.consume_bytes(b"ab");
    c.consume_bytes(b"c");
    let (d, report) = c.finalise();
    assert_eq!(digest_hex(&d), ABC_SHA256);
    let report = report.expect("a receiver waits for the digest");
    assert_eq!(report.message, Ok(d.clone()));
    report.sender.send(report.message).unwrap();
    assert_eq!(rx.blocking_recv().unwrap(), Ok(d));
}

#[test]
fn hashing_consumer_reports_failure() {
    let (mut c, rx) = HashingChunkConsumer::new_with_hash_provider();
    c.consume_bytes(b"ab");
    let report = c.on_failure().expect("a receiver waits for the outcome");
    assert_eq!(report.message, Err(()));
    report.sender.send(report.message).unwrap();
    assert_eq!(rx.blocking_recv().unwrap(), Err(()));
}

#[test]
fn hashing_consumer_without_receiver() {
    let mut c = HashingChunkConsumer::new();
    c.consume_bytes(b"abc");
    let (d, report) = c.finalise();
    assert_eq!(digest_hex(&d), ABC_SHA256);
    assert!(report.is_none());
    assert!(HashingChunkConsumer::new().on_failure().is_none());
}

#[test]
fn verifier_accepts_expected_digest() {
    let mut v = HashVerifier::new(sha256_digest(b"abc"));
    v.consume_bytes(b"a");
    v.consume_bytes(b"bc");
    assert_eq!(v.verdict(), Ok(sha256_digest(b"abc")));
}

#[test]
fn verifier_reports_actual_digest_on_mismatch() {
    let mut v = HashVerifier::new([0u8; 32]);
    v.consume_bytes(b"abc");
    assert_eq!(v.verdict(), Err(sha256_digest(b"abc")));
}
