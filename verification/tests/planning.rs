use dlmgr::builder::{ConcurrencyBehaviour, DownloadTaskBuilder};
use dlmgr::error::{DlMgrSetupError, TaskBuilderError};
use dlmgr::planner::{DlWorkerTask, TaskProvider};

#[test]
fn builder_defaults() {
    let builder = DownloadTaskBuilder::new();
    let props = builder.props();
    assert_eq!(props.task_count, 4);
    assert_eq!(props.chunk_size, 4 * 1024 * 1024);
    assert_eq!(props.max_buffer_size, None);
    assert_eq!(props.concurrency, ConcurrencyBehaviour::Prefer);
    assert_eq!(props.validate_retry_limit, 3);
}

#[test]
fn builder_refuses_zero_task_count() {
    let r = DownloadTaskBuilder::new().with_task_count(0);
    assert!(matches!(r, Err(TaskBuilderError::InvalidParameterValue("task_count"))));
}

#[test]
fn builder_refuses_zero_chunk_size() {
    let r = DownloadTaskBuilder::new().with_chunk_size(0);
    assert!(matches!(r, Err(TaskBuilderError::InvalidParameterValue("chunk_size"))));
}

#[test]
fn builder_refuses_zero_buffer_size() {
    let r = DownloadTaskBuilder::new().with_max_buffer_size(0);
    assert!(matches!(r, Err(TaskBuilderError::InvalidParameterValue("max_buffer_size"))));
}

#[test]
fn builder_setters_change_one_setting() {
    let builder = DownloadTaskBuilder::new()
        .with_chunk_size(32 * 1024)
        .unwrap()
        .with_task_count(16)
        .unwrap()
        .with_max_buffer_size(1 << 20)
        .unwrap()
        .with_concurrency_behaviour(ConcurrencyBehaviour::Disabled);
    let props = builder.props();
    assert_eq!(props.chunk_size, 32 * 1024);
    assert_eq!(props.task_count, 16);
    assert_eq!(props.max_buffer_size, Some(1 << 20));
    assert_eq!(props.concurrency, ConcurrencyBehaviour::Disabled);
    assert_eq!(props.validate_retry_limit, 3);
}

#[test]
fn default_client_settings() {
    let settings = dlmgr::client::DefaultReqwestClientProvider.settings();
    assert_eq!(
        settings,
        dlmgr::client::ClientSettings { connect_timeout_secs: 20, read_timeout_secs: 8 }
    );
}

#[test]
fn builder_accepts_client_provider() {
    let provider: Box<dyn dlmgr::client::ReqwestClientProvider> =
        Box::new(dlmgr::client::DefaultReqwestClientProvider);
    let builder = DownloadTaskBuilder::new().with_client_provider(provider).unwrap();
    assert!(builder.props().client_provider.client().is_ok());
}

#[test]
fn provider_hands_out_consecutive_ranges() {
    let builder = DownloadTaskBuilder::new().with_chunk_size(4).unwrap();
    let mut provider = TaskProvider::new_provider(builder.props(), 10).unwrap();
    assert_eq!(provider.next_task(), Some(DlWorkerTask { offset: 0, len: 4 }));
    assert_eq!(provider.next_task(), Some(DlWorkerTask { offset: 4, len: 4 }));
    assert_eq!(provider.next_task(), Some(DlWorkerTask { offset: 8, len: 2 }));
    assert_eq!(provider.next_task(), None);
    assert_eq!(provider.next_task(), None);
}

#[test]
fn provider_for_exact_multiple_and_empty_file() {
    let builder = DownloadTaskBuilder::new().with_chunk_size(5).unwrap();
    let mut provider = TaskProvider::new_provider(builder.props(), 10).unwrap();
    assert_eq!(provider.next_task(), Some(DlWorkerTask { offset: 0, len: 5 }));
    assert_eq!(provider.next_task(), Some(DlWorkerTask { offset: 5, len: 5 }));
    assert_eq!(provider.next_task(), None);
    let mut empty = TaskProvider::new_provider(builder.props(), 0).unwrap();
    assert_eq!(empty.next_task(), None);
}

#[test]
fn provider_default_buffer_is_two_ranges_per_task() {
    let builder = DownloadTaskBuilder::new();
    let provider = TaskProvider::new_provider(builder.props(), 1).unwrap();
    assert_eq!(provider.max_buffer_chunks(), 8);
    assert_eq!(provider.buffer_permits(), 8 * 4 * 1024 * 1024);
}

#[test]
fn provider_takes_given_buffer_size() {
    let builder = DownloadTaskBuilder::new()
        .with_chunk_size(1000)
        .unwrap()
        .with_max_buffer_size(1000)
        .unwrap();
    let provider = TaskProvider::new_provider(builder.props(), 1).unwrap();
    assert_eq!(provider.max_buffer_chunks(), 1000);
    assert_eq!(provider.buffer_permits(), 1_000_000);
}

#[test]
fn provider_takes_a_budget_of_one_range() {
    let builder = DownloadTaskBuilder::new()
        .with_chunk_size(1000)
        .unwrap()
        .with_max_buffer_size(1)
        .unwrap();
    let mut provider = TaskProvider::new_provider(builder.props(), 1500).unwrap();
    assert_eq!(provider.max_buffer_chunks(), 1);
    assert_eq!(provider.next_task(), Some(DlWorkerTask { offset: 0, len: 1000 }));
}

#[test]
fn provider_takes_largest_semaphore_budget() {
    let limit = usize::MAX >> 3;
    let builder = DownloadTaskBuilder::new().with_max_buffer_size(limit).unwrap();
    let provider = TaskProvider::new_provider(builder.props(), 1).unwrap();
    assert_eq!(provider.max_buffer_chunks(), limit);
    assert_eq!(provider.buffer_permits(), limit);
    let builder = DownloadTaskBuilder::new().with_max_buffer_size(limit + 1).unwrap();
    let r = TaskProvider::new_provider(builder.props(), 1);
    assert!(matches!(r, Err(DlMgrSetupError::InvalidMaxBufferSize)));
}

#[test]
fn provider_refuses_buffer_beyond_semaphore() {
    let builder = DownloadTaskBuilder::new().with_max_buffer_size(usize::MAX).unwrap();
    let r = TaskProvider::new_provider(builder.props(), 1);
    assert!(matches!(r, Err(DlMgrSetupError::InvalidMaxBufferSize)));
}

#[test]
fn a_task_takes_one_permit_per_byte() {
    assert_eq!(dlmgr::planner::task_permits(&DlWorkerTask { offset: 4096, len: 1000 }), 1000);
}

#[test]
fn handed_out_tasks_cover_each_byte_once() {
    let builder = DownloadTaskBuilder::new().with_chunk_size(7).unwrap();
    let mut provider = TaskProvider::new_provider(builder.props(), 30).unwrap();
    let mut seen = vec![0u32; 30];
    while let Some(t) = provider.next_task() {
        for p in t.offset..t.offset + t.len {
            seen[p as usize] += 1;
        }
    }
    assert!(seen.iter().all(|&n| n == 1));
}
