//! The failure taxonomy of the acquisition pipeline. Cancellation is a
//! deliberate terminal state of a job, not an error, so it has no variant
//! here.

use vstd::prelude::*;

verus! {

/// Why an episode's acquisition failed.
#[derive(Clone, Copy, Debug, PartialEq, Eq, Structural)]
pub enum DownloadError {
    /// The play page or another upstream fetch answered with a non-success
    /// status or a connection failure.
    UpstreamHttp,
    /// The play page held no eval-packed inline script.
    ManifestScriptNotFound,
    /// The sandboxed script ran past its time bound.
    ManifestDecodeTimeout,
    /// The sandboxed script failed or its output held no manifest reference.
    ManifestUrlNotFound,
    /// Fetch plus decode together ran past the end-to-end bound.
    ResolveTimeout,
    /// The manifest held no absolute-URL segment lines.
    EmptySegmentPlan,
    /// Fetching the encryption key failed.
    KeyFetchFailed,
    /// One segment's fetch failed terminally; the index says which.
    SegmentFetchFailed { index: usize },
    /// One segment could not be decrypted; the index says which.
    SegmentDecryptFailed { index: usize },
    /// The external media tool is not installed.
    ToolMissing,
    /// The external media tool exited with a failure.
    ExternalToolFailed,
    /// The external media tool ran past its wall-clock bound.
    ExternalToolTimeout,
}

/// The human-readable label of each failure, used in status lines.
pub open spec fn error_label(e: DownloadError) -> Seq<char> {
    match e {
        DownloadError::UpstreamHttp => "upstream HTTP request failed"@,
        DownloadError::ManifestScriptNotFound => "no eval script found in page content"@,
        DownloadError::ManifestDecodeTimeout => "script execution timed out"@,
        DownloadError::ManifestUrlNotFound => "m3u8 source not found in unpacked script"@,
        DownloadError::ResolveTimeout => "manifest resolution timed out"@,
        DownloadError::EmptySegmentPlan => "no segments in playlist"@,
        DownloadError::KeyFetchFailed => "fetching the encryption key failed"@,
        DownloadError::SegmentFetchFailed { .. } => "segment download failed"@,
        DownloadError::SegmentDecryptFailed { .. } => "segment decryption failed"@,
        DownloadError::ToolMissing => "ffmpeg not found"@,
        DownloadError::ExternalToolFailed => "ffmpeg failed"@,
        DownloadError::ExternalToolTimeout => "ffmpeg execution timed out"@,
    }
}

impl DownloadError {
    /// The label as an owned string, for status reporting.
    pub fn describe(&self) -> (r: String)
        ensures
            r@ == error_label(*self),
    {
        match self {
            DownloadError::UpstreamHttp => String::from_str("upstream HTTP request failed"),
            DownloadError::ManifestScriptNotFound => String::from_str(
                "no eval script found in page content",
            ),
            DownloadError::ManifestDecodeTimeout => String::from_str("script execution timed out"),
            DownloadError::ManifestUrlNotFound => String::from_str(
                "m3u8 source not found in unpacked script",
            ),
            DownloadError::ResolveTimeout => String::from_str("manifest resolution timed out"),
            DownloadError::EmptySegmentPlan => String::from_str("no segments in playlist"),
            DownloadError::KeyFetchFailed => String::from_str(
                "fetching the encryption key failed",
            ),
            DownloadError::SegmentFetchFailed { .. } => String::from_str(
                "segment download failed",
            ),
            DownloadError::SegmentDecryptFailed { .. } => String::from_str(
                "segment decryption failed",
            ),
            DownloadError::ToolMissing => String::from_str("ffmpeg not found"),
            DownloadError::ExternalToolFailed => String::from_str("ffmpeg failed"),
            DownloadError::ExternalToolTimeout => String::from_str("ffmpeg execution timed out"),
        }
    }
}

} // verus!
