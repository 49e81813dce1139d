//! What downloads report: status updates and errors.

use vstd::prelude::*;
use vstd::string::StringExecFns;

use crate::music_download_status::MusicDownloadStatus;

verus! {

/// A report of the download manager to the rest of the program.
#[derive(Debug, PartialEq, Eq)]
pub enum DownloadManagerMessage {
    /// The track with this id has a new status.
    VideoStatusUpdate(String, MusicDownloadStatus),
}

pub ghost struct StatusUpdate {
    pub video_id: Seq<char>,
    pub status: MusicDownloadStatus,
}

impl View for DownloadManagerMessage {
    type V = StatusUpdate;

    open spec fn view(&self) -> StatusUpdate {
        match self {
            DownloadManagerMessage::VideoStatusUpdate(id, status) => StatusUpdate {
                video_id: id@,
                status: *status,
            },
        }
    }
}

pub open spec fn message_view(m: Option<DownloadManagerMessage>) -> Option<StatusUpdate> {
    match m {
        Some(m) => Some(m@),
        None => None,
    }
}

/// The report that a track has a new status.
pub fn status_update(video_id: &str, status: MusicDownloadStatus) -> (m: DownloadManagerMessage)
    ensures
        m@ == (StatusUpdate { video_id: video_id@, status }),
{
    DownloadManagerMessage::VideoStatusUpdate(video_id.to_owned(), status)
}

/// Which program downloads.
#[derive(Debug, Clone, Copy, PartialEq, Eq, Structural)]
pub enum Downloader {
    YtDlp,
    RustyYtdl,
}

/// Why a download failed, in the words of the failing part.
#[derive(Debug, PartialEq, Eq)]
pub enum DownloadError {
    YtDlpFailed(String),
    IoError(String),
    RustyYtdl(String),
}

pub ghost enum DownloadErrorView {
    YtDlpFailed(Seq<char>),
    IoError(Seq<char>),
    RustyYtdl(Seq<char>),
}

impl View for DownloadError {
    type V = DownloadErrorView;

    open spec fn view(&self) -> DownloadErrorView {
        match self {
            DownloadError::YtDlpFailed(e) => DownloadErrorView::YtDlpFailed(e@),
            DownloadError::IoError(e) => DownloadErrorView::IoError(e@),
            DownloadError::RustyYtdl(e) => DownloadErrorView::RustyYtdl(e@),
        }
    }
}

/// The failure that a download ended with, if it failed.
pub open spec fn failure_view(r: Result<(), DownloadError>) -> Option<DownloadErrorView> {
    match r {
        Ok(_) => None,
        Err(e) => Some(e@),
    }
}

impl DownloadErrorView {
    pub open spec fn message(self) -> Seq<char> {
        match self {
            DownloadErrorView::YtDlpFailed(e) => "yt-dlp failed: "@ + e,
            DownloadErrorView::IoError(e) => "IO error: "@ + e,
            DownloadErrorView::RustyYtdl(e) => "rusty_ytdl error: "@ + e,
        }
    }
}

impl DownloadError {
    /// The error as the log shows it.
    pub fn message(&self) -> (s: String)
        ensures
            s@ == self@.message(),
    {
        let (head, detail): (&str, &String) = match self {
            Self::YtDlpFailed(e) => ("yt-dlp failed: ", e),
            Self::IoError(e) => ("IO error: ", e),
            Self::RustyYtdl(e) => ("rusty_ytdl error: ", e),
        };
        let mut s = head.to_owned();
        s.append(detail.as_str());
        s
    }
}

/// The message of an error says which part failed and holds all that it said.
pub proof fn law_error_message(e: DownloadError)
    ensures
        match e {
            DownloadError::YtDlpFailed(d) => e@.message() == "yt-dlp failed: "@ + d@,
            DownloadError::IoError(d) => e@.message() == "IO error: "@ + d@,
            DownloadError::RustyYtdl(d) => e@.message() == "rusty_ytdl error: "@ + d@,
        },
{
}

} // verus!
