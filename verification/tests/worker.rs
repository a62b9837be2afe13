use dlmgr::error::DlMgrSetupError;
use dlmgr::planner::DlWorkerTask;
use dlmgr::worker::{split_permits, ChunkRetry, RangeResponse, RequestChunkError, RetryStep};
use std::sync::Arc;
use tokio::sync::Semaphore;

#[test]
fn partial_ranges_move_the_offset() {
    let mut r = ChunkRetry::new(DlWorkerTask { offset: 100, len: 50 });
    assert_eq!(r.begin_attempt(), 0);
    assert_eq!(r.begin_attempt(), 1);
    assert_eq!(r.on_received(20), RetryStep::Continue);
    assert_eq!((r.offset(), r.len()), (120, 30));
    assert_eq!(r.begin_attempt(), 0);
    assert_eq!(r.on_received(30), RetryStep::Complete);
}

#[test]
fn excess_bytes_are_reported() {
    let mut r = ChunkRetry::new(DlWorkerTask { offset: 0, len: 10 });
    assert_eq!(r.on_received(4), RetryStep::Continue);
    assert_eq!(
        r.on_received(7),
        RetryStep::ExcessBytes { offset: 4, len: 6, received_len: 7 }
    );
}

#[test]
fn failures_give_up_after_half_an_hour() {
    let mut r = ChunkRetry::new(DlWorkerTask { offset: 0, len: 10 });
    assert_eq!(r.on_request_error(1_800_000_000_000), RetryStep::Continue);
    assert_eq!(r.on_request_error(1_800_000_000_001), RetryStep::GiveUp);
    assert_eq!(r.task(), DlWorkerTask { offset: 0, len: 10 });
}

#[test]
fn zero_byte_answer_retries_same_range() {
    let mut r = ChunkRetry::new(DlWorkerTask { offset: 5, len: 10 });
    assert_eq!(r.on_received(0), RetryStep::Continue);
    assert_eq!((r.offset(), r.len()), (5, 10));
}

#[test]
fn permits_split_until_empty() {
    let sem = Arc::new(Semaphore::new(10));
    let mut container = Some(sem.clone().try_acquire_many_owned(10).unwrap());
    let a = split_permits(&mut container, 4).unwrap();
    assert_eq!(a.num_permits(), 4);
    assert_eq!(container.as_ref().unwrap().num_permits(), 6);
    match split_permits(&mut container, 7) {
        Err(RequestChunkError::SplitPermitError(m)) => {
            assert_eq!(m, "Not enough permits available. Requested=7 avail=6")
        }
        _ => panic!("expected a refusal"),
    }
    assert_eq!(container.as_ref().unwrap().num_permits(), 6);
    let b = split_permits(&mut container, 6).unwrap();
    assert_eq!(b.num_permits(), 6);
    assert!(container.is_none());
    match split_permits(&mut container, 1) {
        Err(RequestChunkError::SplitPermitError(m)) => assert_eq!(m, "permit_container already empty"),
        _ => panic!("expected a refusal"),
    }
    assert!(container.is_none());
    drop(a);
    drop(b);
    assert_eq!(sem.available_permits(), 10);
}

#[test]
fn setup_error_is_debug() {
    assert_eq!(format!("{:?}", DlMgrSetupError::InvalidMaxBufferSize), "InvalidMaxBufferSize");
}

#[test]
fn response_forwards_each_chunk_with_its_own_permits() {
    let sem = Arc::new(Semaphore::new(12));
    let mut container = Some(sem.clone().try_acquire_many_owned(10).unwrap());
    let mut resp = RangeResponse::new(1000, 10);
    assert!(resp.on_body_chunk(0, &mut container).unwrap().is_none());
    let (off, p) = resp.on_body_chunk(4, &mut container).unwrap().unwrap();
    assert_eq!(off, 1000);
    assert_eq!(p.num_permits(), 4);
    assert_eq!(container.as_ref().unwrap().num_permits(), 6);
    assert!(matches!(resp.on_end(&container), Err(RequestChunkError::SubmitChunkError)));
    assert_eq!(resp.on_error(), Some(4));
    drop(p);
    assert_eq!(sem.available_permits(), 6);
    let (off, p2) = resp.on_body_chunk(6, &mut container).unwrap().unwrap();
    assert_eq!(off, 1004);
    assert_eq!(p2.num_permits(), 6);
    assert!(container.is_none());
    assert_eq!(resp.on_end(&container).unwrap(), 10);
    assert_eq!(sem.available_permits(), 6);
    drop(p2);
    assert_eq!(sem.available_permits(), 12);
}

#[test]
fn response_refuses_a_chunk_longer_than_the_permits_left() {
    let sem = Arc::new(Semaphore::new(2));
    let mut container = Some(sem.clone().try_acquire_many_owned(2).unwrap());
    let mut resp = RangeResponse::new(0, 2);
    let (off, p) = resp.on_body_chunk(1, &mut container).unwrap().unwrap();
    assert_eq!((off, p.num_permits()), (0, 1));
    match resp.on_body_chunk(2, &mut container) {
        Err(RequestChunkError::SplitPermitError(m)) => {
            assert_eq!(m, "Not enough permits available. Requested=2 avail=1")
        }
        _ => panic!("expected a refusal"),
    }
    assert_eq!(container.as_ref().unwrap().num_permits(), 1);
    assert_eq!(resp.bytes_sent(), 1);
}

#[test]
fn response_refuses_excess_and_keeps_the_permits() {
    let sem = Arc::new(Semaphore::new(20));
    let mut container = Some(sem.clone().try_acquire_many_owned(10).unwrap());
    let mut resp = RangeResponse::new(0, 10);
    match resp.on_body_chunk(11, &mut container) {
        Err(RequestChunkError::SplitPermitError(m)) => {
            assert_eq!(m, "Not enough permits available. Requested=11 avail=10")
        }
        _ => panic!("expected a refusal"),
    }
    assert_eq!(container.as_ref().unwrap().num_permits(), 10);
    assert_eq!(resp.bytes_sent(), 0);
    let mut empty = None;
    match resp.on_body_chunk(10, &mut empty) {
        Err(RequestChunkError::SplitPermitError(m)) => assert_eq!(m, "permit_container already empty"),
        _ => panic!("expected a refusal"),
    }
}

#[test]
fn response_forwards_a_chunk_past_the_end_of_the_range() {
    let sem = Arc::new(Semaphore::new(20));
    let mut container = Some(sem.clone().try_acquire_many_owned(20).unwrap());
    let mut resp = RangeResponse::new(0, 10);
    let (_, p) = resp.on_body_chunk(8, &mut container).unwrap().unwrap();
    assert_eq!(p.num_permits(), 8);
    let (off, q) = resp.on_body_chunk(3, &mut container).unwrap().unwrap();
    assert_eq!((off, q.num_permits()), (8, 3));
    assert_eq!(resp.bytes_sent(), 11);
    assert_eq!(container.as_ref().unwrap().num_permits(), 9);
    assert!(matches!(resp.on_end(&container), Err(RequestChunkError::SubmitChunkError)));
}

#[test]
fn response_without_bytes_reports_the_error() {
    let resp = RangeResponse::new(0, 10);
    assert_eq!(resp.on_error(), None);
    assert_eq!(resp.bytes_sent(), 0);
}

#[test]
fn failed_attempts_move_on_to_the_next_server() {
    let urls: Vec<url::Url> =
        ["http://a/f", "http://b/f", "http://c/f"].iter().map(|u| url::Url::parse(u).unwrap()).collect();
    let set = dlmgr::urlset::UrlSet::from_urls(urls);
    let mut r = ChunkRetry::new(DlWorkerTask { offset: 0, len: 10 });
    assert_eq!(r.begin_attempt_at(&set, 1).as_str(), "http://b/f");
    assert_eq!(r.on_request_error(0), RetryStep::Continue);
    assert_eq!(r.begin_attempt_at(&set, 1).as_str(), "http://c/f");
    assert_eq!(r.begin_attempt_at(&set, 1).as_str(), "http://a/f");
    assert_eq!(r.on_received(4), RetryStep::Continue);
    assert_eq!(r.begin_attempt_at(&set, 1).as_str(), "http://b/f");
}

#[test]
fn decimal_text_has_no_leading_zeros() {
    assert_eq!(dlmgr::worker::decimal_string(0), "0");
    assert_eq!(dlmgr::worker::decimal_string(7), "7");
    assert_eq!(dlmgr::worker::decimal_string(1_234_507), "1234507");
    assert_eq!(dlmgr::worker::decimal_string(u64::MAX), u64::MAX.to_string());
}
