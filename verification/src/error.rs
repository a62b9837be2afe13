//! The errors of the download manager.
use vstd::prelude::*;
use crate::worker::RequestChunkError;

verus! {

/// A builder parameter was given a value it cannot take; the payload names the parameter.
#[derive(Debug)]
pub enum TaskBuilderError {
    InvalidParameterValue(&'static str),
}

/// Why a download could not be set up.
#[derive(Debug)]
pub enum DlMgrSetupError {
    HeadRequestFailed(url::Url, reqwest::Error),
    RangeRequestsUnsupported,
    NoContentLengthHeader,
    InconsistentContentLength,
    InvalidMaxBufferSize,
    ReqwestClientBuildError(reqwest::Error),
}

/// Why a download that was set up did not complete.
#[derive(Debug)]
pub enum DlMgrCompletionError {
    CompletionHandleDropped,
    ReqwestClientBuildError(reqwest::Error),
    TaskFailed(DownloadWorkerError),
    TaskPanicked(tokio::task::JoinError),
}

/// Why one of the tasks of a download failed.
#[derive(Debug)]
pub enum DownloadWorkerError {
    TooManyConsecutiveFailures(u8, reqwest::Error),
    Fatal(u8, RequestChunkError),
    ReorderChunks(ReorderChunkError),
}

/// Why the chunks of a download could not be put back in order.
#[derive(Debug)]
pub enum ReorderChunkError {
    ChunkConsumer(anyhow::Error),
    NextOffsetAheadOfFurthestOffset(u64, u64),
    ReceivedUnexpectedChunk(u64, u64),
    DuplicateChunk(u64),
    UnreachableCondition,
    LeftoverChunks(usize),
}

} // verus!
