//! Configuring a download before it starts.
use vstd::prelude::*;
use std::sync::Arc;
use crate::client::{DefaultReqwestClientProvider, ReqwestClientProvider};
use crate::error::TaskBuilderError;

verus! {

/// Whether a download may fetch several ranges of the file at once.
#[derive(Clone, Copy, Debug, PartialEq, Eq, Structural)]
pub enum ConcurrencyBehaviour {
    /// Concurrent when every server supports range requests, sequential otherwise.
    Prefer,
    /// Concurrent, or the download is refused.
    Require,
    /// Always one sequential request.
    Disabled,
}

/// The settings of a download.
#[derive(Clone)]
pub struct DownloadProps {
    pub task_count: u8,
    pub chunk_size: u32,
    pub max_buffer_size: Option<usize>,
    pub concurrency: ConcurrencyBehaviour,
    pub validate_retry_limit: u8,
    pub client_provider: Arc<Box<dyn ReqwestClientProvider>>,
}

pub const DEFAULT_TASK_COUNT: u8 = 4;

pub const DEFAULT_CHUNK_SIZE: u32 = 4194304;

pub const DEFAULT_VALIDATE_RETRY_LIMIT: u8 = 3;

/// Builds downloads; every setter refuses a value the download cannot work with.
#[derive(Clone)]
pub struct DownloadTaskBuilder {
    props: DownloadProps,
}

impl DownloadTaskBuilder {
    pub closed spec fn spec_props(&self) -> DownloadProps {
        self.props
    }

    /// Four tasks, 4 MiB chunks, a buffer budget derived from those, concurrency
    /// where the servers allow it, and the default HTTP client.
    pub fn new() -> (r: Self)
        ensures
            r.spec_props().task_count == DEFAULT_TASK_COUNT,
            r.spec_props().chunk_size == DEFAULT_CHUNK_SIZE,
            r.spec_props().max_buffer_size is None,
            r.spec_props().concurrency == ConcurrencyBehaviour::Prefer,
            r.spec_props().validate_retry_limit == DEFAULT_VALIDATE_RETRY_LIMIT,
    {
        let provider: Box<dyn ReqwestClientProvider> = Box::new(DefaultReqwestClientProvider);
        DownloadTaskBuilder {
            props: DownloadProps {
                task_count: DEFAULT_TASK_COUNT,
                chunk_size: DEFAULT_CHUNK_SIZE,
                max_buffer_size: None,
                concurrency: ConcurrencyBehaviour::Prefer,
                validate_retry_limit: DEFAULT_VALIDATE_RETRY_LIMIT,
                client_provider: Arc::new(provider),
            },
        }
    }

    /// The settings the download will run with.
    pub fn props(&self) -> (r: &DownloadProps)
        ensures
            *r == self.spec_props(),
    {
        &self.props
    }

    /// Sets how many ranges are fetched at once; zero is refused.
    pub fn with_task_count(self, task_count: u8) -> (r: Result<Self, TaskBuilderError>)
        ensures
            task_count == 0 ==> (r matches Err(TaskBuilderError::InvalidParameterValue(p))
                && p == "task_count"),
            task_count != 0 ==> (r matches Ok(b) && b.spec_props() == (DownloadProps {
                task_count,
                ..self.spec_props()
            })),
    {
        if task_count == 0 {
            Err(TaskBuilderError::InvalidParameterValue("task_count"))
        } else {
            let mut builder = self;
            builder.props.task_count = task_count;
            Ok(builder)
        }
    }

    /// Sets the length of each range; zero is refused.
    pub fn with_chunk_size(self, chunk_size: u32) -> (r: Result<Self, TaskBuilderError>)
        ensures
            chunk_size == 0 ==> (r matches Err(TaskBuilderError::InvalidParameterValue(p))
                && p == "chunk_size"),
            chunk_size != 0 ==> (r matches Ok(b) && b.spec_props() == (DownloadProps {
                chunk_size,
                ..self.spec_props()
            })),
    {
        if chunk_size == 0 {
            Err(TaskBuilderError::InvalidParameterValue("chunk_size"))
        } else {
            let mut builder = self;
            builder.props.chunk_size = chunk_size;
            Ok(builder)
        }
    }

    /// Sets how many ranges may be fetched or wait to be handed on at once; zero is refused.
    pub fn with_max_buffer_size(self, max_buffer_size: usize) -> (r: Result<Self, TaskBuilderError>)
        ensures
            max_buffer_size == 0 ==> (r matches Err(TaskBuilderError::InvalidParameterValue(p))
                && p == "max_buffer_size"),
            max_buffer_size != 0 ==> (r matches Ok(b) && b.spec_props() == (DownloadProps {
                max_buffer_size: Some(max_buffer_size),
                ..self.spec_props()
            })),
    {
        if max_buffer_size == 0 {
            Err(TaskBuilderError::InvalidParameterValue("max_buffer_size"))
        } else {
            let mut builder = self;
            builder.props.max_buffer_size = Some(max_buffer_size);
            Ok(builder)
        }
    }

    /// Sets where the HTTP clients of the download come from.
    pub fn with_client_provider(self, provider: Box<dyn ReqwestClientProvider>) -> (r: Result<
        Self,
        TaskBuilderError,
    >)
        ensures
            r matches Ok(b) && b.spec_props() == (DownloadProps {
                client_provider: Arc::new(provider),
                ..self.spec_props()
            }),
    {
        let mut builder = self;
        builder.props.client_provider = Arc::new(provider);
        Ok(builder)
    }

    /// Sets whether the download may fetch several ranges at once.
    pub fn with_concurrency_behaviour(self, behaviour: ConcurrencyBehaviour) -> (r: Self)
        ensures
            r.spec_props() == (DownloadProps { concurrency: behaviour, ..self.spec_props() }),
    {
        let mut builder = self;
        builder.props.concurrency = behaviour;
        builder
    }
}

} // verus!
