//! Errors returned by the coordinator and the downloader.

use vstd::prelude::*;

verus! {

/// Validation errors of the coordinator's client-facing operations. They are
/// returned to the triggering request only: never broadcast, never retried.
#[derive(Debug, Clone, Copy, PartialEq, Eq, Structural)]
pub enum ServerError {
    ProjectDoesNotExist,
    ProjectAlreadyExists,
    EmptyUrls,
    SegmentOutOfBounds,
    UserAlreadyJoinedProject,
    CommunicationError,
}

/// Failures of the external fetch-and-transcode pipeline, reported back to
/// the downloader when a batch ends.
#[derive(Debug, Clone, Copy, PartialEq, Eq, Structural)]
pub enum DownloaderError {
    YoutubeDlCmdNotFoundError,
    DownloadFailedError,
    VideosFolderNotExistError,
    DownloadedVideoNotFoundError,
    RenderingError,
    BrokenRenderedVideo,
}

/// Why a video handle is not available yet: the status of the first not-ready
/// id of a request, scanned in request order.
#[derive(Debug, Clone, Copy, PartialEq, Eq, Structural)]
pub enum DownloadVideoStatus {
    NeverDownloaded,
    DownloadPending,
}

} // verus!
