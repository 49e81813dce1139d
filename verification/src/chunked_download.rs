//! Downloads in chunks with the `rusty_ytdl` library: which format is taken,
//! how progress is counted, and when a download is complete.
//!
//! A download begins with [`ChunkedDownload::find_video`]. After that,
//! [`ChunkedDownload::download_with_rusty_ytdl`] takes what the network and the
//! file have shown, and returns what is to be reported and done next. The
//! download is over when [`ChunkWanted::Finished`] is returned.

use core::cmp::Ordering;
use rusty_ytdl::{DownloadOptions, Video, VideoError, VideoOptions, VideoQuality, VideoSearchOptions};
use std::sync::Arc;
use vstd::prelude::*;
use vstd::string::StringExecFns;

use crate::done_percent::{
    done_percent, done_percent_of, lemma_all_done, lemma_part_at_most_full, lemma_part_monotonic,
};
use crate::download::{
    failure_view, message_view, status_update, DownloadError, DownloadErrorView,
    DownloadManagerMessage, StatusUpdate,
};
use crate::music_download_status::MusicDownloadStatus;
use crate::text::{append_decimal, decimal, trimmed};

verus! {

/// How many bytes are asked for at once.
pub const CHUNK_SIZE: u64 = 102_400;

/// Whether a format is taken into account: audio only, in an MP4 container.
pub fn is_audio_mp4(has_audio: bool, has_video: bool, container: &str) -> (r: bool)
    ensures
        r == (has_audio && !has_video && container@ == "mp4"@),
{
    has_audio && !has_video && container.to_owned() == "mp4".to_owned()
}

/// The order of formats by their audio bitrate; an unknown bitrate comes before
/// any known one.
pub fn compare_audio_bitrate(x: Option<u64>, y: Option<u64>) -> (r: Ordering)
    ensures
        match (x, y) {
            (None, None) => r is Equal,
            (None, Some(_)) => r is Less,
            (Some(_), None) => r is Greater,
            (Some(a), Some(b)) => {
                &&& r is Less <==> a < b
                &&& r is Equal <==> a == b
                &&& r is Greater <==> a > b
            },
        },
{
    match (x, y) {
        (None, None) => Ordering::Equal,
        (None, Some(_)) => Ordering::Less,
        (Some(_), None) => Ordering::Greater,
        (Some(a), Some(b)) => {
            if a < b {
                Ordering::Less
            } else if a == b {
                Ordering::Equal
            } else {
                Ordering::Greater
            }
        },
    }
}

#[verifier::external_type_specification]
#[verifier::external_body]
pub struct ExVideo(Video);

/// The characters that ids of tracks are made of.
pub open spec fn is_id_char(c: char) -> bool {
    'a' <= c <= 'z' || 'A' <= c <= 'Z' || '0' <= c <= '9' || c == '-' || c == '_'
}

/// Whether a text has the form of an id of a track.
pub open spec fn is_video_id(s: Seq<char>) -> bool {
    s.len() == 11 && forall|i: int| 0 <= i < s.len() ==> is_id_char(#[trigger] s[i])
}

/// Whether a text has the form of a web address.
pub open spec fn is_web_address(s: Seq<char>) -> bool {
    "http://"@.is_prefix_of(s) || "https://"@.is_prefix_of(s)
}

/// The id of a track that `rusty_ytdl::get_video_id` finds in a text, if it finds
/// one.
pub uninterp spec fn id_in(text: Seq<char>) -> Option<Seq<char>>;

/// The id of the track that a video is for: what `rusty_ytdl::Video::get_video_id`
/// returns of it.
pub uninterp spec fn id_of_video(video: Video) -> Seq<char>;

/// The most bytes that a video asks for at once: the `dl_chunk_size` of the
/// `rusty_ytdl::DownloadOptions` that it was made with.
pub uninterp spec fn chunk_size_of_video(video: Video) -> Option<u64>;

/// `rusty_ytdl::Video::new_with_options`, with options that filter the formats
/// by [`is_audio_mp4`], order them by [`compare_audio_bitrate`] and set the size
/// of chunks; an error is given in its display form.
///
/// A text is not found exactly when it holds no id. That is so of a text that has
/// neither the form of an id nor that of a web address, white space around it
/// aside, and it is not so of one that has the form of an id. A video that is made
/// is for the id in the text, which is the text itself where it has the form of an
/// id, and asks for chunks of the given size. Whether a video is made for an id is
/// left unsaid, since its network client may fail to be set up, which is another
/// error; so is which id an address holds.
#[verifier::external_body]
fn new_video(video_id: &str, chunk_size: u64) -> (r: Result<Video, String>)
    ensures
        (r is Err && r->Err_0@ == "The video not found"@) <==> id_in(video_id@) is None,
        !is_video_id(trimmed(video_id@)) && !is_web_address(trimmed(video_id@)) ==> r is Err
            && r->Err_0@ == "The video not found"@,
        is_video_id(trimmed(video_id@)) && r is Err ==> r->Err_0@ != "The video not found"@,
        r is Ok ==> id_in(video_id@) == Some(id_of_video(r->Ok_0)),
        r is Ok && is_video_id(trimmed(video_id@)) ==> id_of_video(r->Ok_0) == video_id@,
        r is Ok ==> chunk_size_of_video(r->Ok_0) == Some(chunk_size),
{
    let filter = VideoSearchOptions::Custom(
        Arc::new(|f| is_audio_mp4(f.has_audio, f.has_video, f.mime_type.container.as_str())),
    );
    let options = VideoOptions {
        quality: VideoQuality::Custom(
            filter.clone(),
            Arc::new(|x, y| compare_audio_bitrate(x.audio_bitrate, y.audio_bitrate)),
        ),
        filter,
        download_options: DownloadOptions { dl_chunk_size: Some(chunk_size) },
        ..Default::default()
    };
    Video::new_with_options(video_id, options).map_err(|e| e.to_string())
}

/// The display form of `rusty_ytdl::VideoError::DownloadError`: the reason
/// behind a fixed heading.
#[verifier::external_body]
fn video_download_error(reason: String) -> (s: String)
    ensures
        s@ == "Download Error: "@ + reason@,
{
    VideoError::DownloadError(reason).to_string()
}

/// The failure of a download for some reason.
pub open spec fn failure_for(reason: Seq<char>) -> DownloadErrorView {
    DownloadErrorView::RustyYtdl("Download Error: "@ + reason)
}

/// The failure of a download for some reason, such as that its file cannot be
/// written.
pub fn download_failure(reason: String) -> (e: DownloadError)
    ensures
        e@ == failure_for(reason@),
{
    DownloadError::RustyYtdl(video_download_error(reason))
}

/// The end of a download whose track does not exist.
pub open spec fn not_found() -> ChunkWantedView {
    ChunkWantedView::Finished(Some(DownloadErrorView::RustyYtdl("The video not found"@)))
}

/// Why a file of the wrong size is refused.
pub open spec fn size_mismatch(total: nat, length: nat) -> Seq<char> {
    "Downloaded file is not the same size as the content length ("@ + decimal(total) + "/"@
        + decimal(length) + ")"@
}

/// A download in progress.
#[derive(Debug, Clone, Copy, PartialEq, Eq, Structural)]
pub struct ChunkedDownload {
    /// The bytes received.
    pub total: usize,
    /// The bytes announced.
    pub length: usize,
}

impl ChunkedDownload {
    /// A download of which nothing is known yet.
    pub fn new() -> (d: Self)
        ensures
            d == (ChunkedDownload { total: 0, length: 0 }),
    {
        Self { total: 0, length: 0 }
    }

    /// Whether all that was announced was received, and it was not nothing.
    pub open spec fn is_complete(self) -> bool {
        self.total == self.length && self.length != 0
    }

    /// The download with one more chunk.
    pub open spec fn with_chunk(self, len: usize) -> Self {
        ChunkedDownload { total: (self.total + len) as usize, ..self }
    }

    /// The status to report of a download in progress.
    pub open spec fn status(self) -> MusicDownloadStatus {
        MusicDownloadStatus::Downloading(
            done_percent_of(self.total as nat, self.length as nat) as usize,
        )
    }

    /// The download after a step.
    pub open spec fn stepped(self, step: ChunkStepView) -> Self {
        match step {
            ChunkStepView::Opened { length } => ChunkedDownload { total: 0, length },
            ChunkStepView::Chunk { len } => self.with_chunk(len),
            _ => self,
        }
    }

    /// The report that follows from a step: zero at the beginning, the
    /// percentage after each chunk, and 100 at the end.
    pub open spec fn reported(self, step: ChunkStepView) -> Option<MusicDownloadStatus> {
        match step {
            ChunkStepView::Resolved => Some(MusicDownloadStatus::Downloading(0)),
            ChunkStepView::Chunk { len } => Some(self.with_chunk(len).status()),
            ChunkStepView::Flushed => if self.is_complete() {
                Some(MusicDownloadStatus::Downloading(100))
            } else {
                None
            },
            _ => None,
        }
    }

    /// What is to be done after a step. The file of an incomplete download is
    /// removed.
    pub open spec fn next(self, step: ChunkStepView) -> ChunkWantedView {
        match step {
            ChunkStepView::Resolved => ChunkWantedView::Stream,
            ChunkStepView::Opened { length } => ChunkWantedView::CreateFile,
            ChunkStepView::Chunk { len } => ChunkWantedView::WriteChunk,
            ChunkStepView::EndOfStream => ChunkWantedView::Flush,
            ChunkStepView::Flushed => if self.is_complete() {
                ChunkWantedView::Finished(None)
            } else {
                ChunkWantedView::RemoveFile
            },
            ChunkStepView::Removed => ChunkWantedView::Finished(
                Some(failure_for(size_mismatch(self.total as nat, self.length as nat))),
            ),
            ChunkStepView::FileFailed(reason) => ChunkWantedView::Finished(
                Some(failure_for(reason)),
            ),
            ChunkStepView::VideoFailed(e) => ChunkWantedView::Finished(
                Some(DownloadErrorView::RustyYtdl(e)),
            ),
        }
    }

    /// Looks for a track, and does the part of a download that follows. A video
    /// that is found is the one of this track, and comes in chunks of
    /// [`CHUNK_SIZE`]. Nothing is taken from the network yet.
    pub fn find_video(&mut self, video_id: &str) -> (r: (
        Option<Video>,
        Option<DownloadManagerMessage>,
        ChunkWanted,
    ))
        ensures
            *final(self) == *old(self),
            r.0 matches Some(video) ==> {
                &&& id_in(video_id@) == Some(id_of_video(video))
                &&& is_video_id(trimmed(video_id@)) ==> id_of_video(video) == video_id@
                &&& chunk_size_of_video(video) == Some(CHUNK_SIZE)
                &&& message_view(r.1) == Some(
                    StatusUpdate {
                        video_id: video_id@,
                        status: MusicDownloadStatus::Downloading(0),
                    },
                )
                &&& r.2@ == ChunkWantedView::Stream
            },
            r.0 is None ==> {
                &&& r.1 is None
                &&& exists|e: Seq<char>|
                    r.2@ == #[trigger] old(self).next(ChunkStepView::VideoFailed(e))
            },
            r.2@ == not_found() <==> id_in(video_id@) is None,
            !is_video_id(trimmed(video_id@)) && !is_web_address(trimmed(video_id@)) ==> r.2@
                == not_found(),
            is_video_id(trimmed(video_id@)) ==> r.2@ != not_found(),
    {
        let found = new_video(video_id, CHUNK_SIZE);
        self.search_done(video_id, found)
    }

    /// Does the part of a download that follows from the search for its track:
    /// the video that was found, or the display form of the error.
    pub fn search_done(&mut self, video_id: &str, found: Result<Video, String>) -> (r: (
        Option<Video>,
        Option<DownloadManagerMessage>,
        ChunkWanted,
    ))
        ensures
            *final(self) == *old(self),
            match found {
                Ok(video) => {
                    &&& r.0 == Some(video)
                    &&& message_view(r.1) == Some(
                        StatusUpdate {
                            video_id: video_id@,
                            status: MusicDownloadStatus::Downloading(0),
                        },
                    )
                    &&& r.2@ == ChunkWantedView::Stream
                },
                Err(e) => {
                    &&& r.0 is None
                    &&& r.1 is None
                    &&& r.2@ == old(self).next(ChunkStepView::VideoFailed(e@))
                },
            },
    {
        match found {
            Ok(video) => {
                let (report, wanted) = self.download_with_rusty_ytdl(video_id, ChunkStep::Resolved);
                (Some(video), report, wanted)
            },
            Err(e) => {
                let (report, wanted) = self.download_with_rusty_ytdl(
                    video_id,
                    ChunkStep::VideoFailed(e),
                );
                (None, report, wanted)
            },
        }
    }

    /// Does the part of a download that follows from `step`.
    pub fn download_with_rusty_ytdl(&mut self, video_id: &str, step: ChunkStep) -> (r: (
        Option<DownloadManagerMessage>,
        ChunkWanted,
    ))
        requires
            step matches ChunkStep::Chunk { len } ==> old(self).total + len <= usize::MAX,
        ensures
            *final(self) == old(self).stepped(step@),
            message_view(r.0) == match old(self).reported(step@) {
                Some(status) => Some(StatusUpdate { video_id: video_id@, status }),
                None => None,
            },
            r.1@ == old(self).next(step@),
    {
        match step {
            ChunkStep::Resolved => (
                Some(status_update(video_id, MusicDownloadStatus::Downloading(0))),
                ChunkWanted::Stream,
            ),
            ChunkStep::Opened { length } => {
                *self = ChunkedDownload { total: 0, length };
                (None, ChunkWanted::CreateFile)
            },
            ChunkStep::Chunk { len } => {
                self.total = self.total + len;
                let percent = done_percent(self.total, self.length);
                (
                    Some(status_update(video_id, MusicDownloadStatus::Downloading(percent))),
                    ChunkWanted::WriteChunk,
                )
            },
            ChunkStep::EndOfStream => (None, ChunkWanted::Flush),
            ChunkStep::Flushed => {
                if self.total != self.length || self.length == 0 {
                    (None, ChunkWanted::RemoveFile)
                } else {
                    (
                        Some(status_update(video_id, MusicDownloadStatus::Downloading(100))),
                        ChunkWanted::Finished(Ok(())),
                    )
                }
            },
            ChunkStep::Removed => {
                let mut reason =
                    "Downloaded file is not the same size as the content length (".to_owned();
                append_decimal(&mut reason, self.total);
                reason.append("/");
                append_decimal(&mut reason, self.length);
                reason.append(")");
                (None, ChunkWanted::Finished(Err(download_failure(reason))))
            },
            ChunkStep::FileFailed(reason) => (
                None,
                ChunkWanted::Finished(Err(download_failure(reason))),
            ),
            ChunkStep::VideoFailed(e) => (
                None,
                ChunkWanted::Finished(Err(DownloadError::RustyYtdl(e))),
            ),
        }
    }
}

/// What the network and the file have shown.
#[derive(Debug, PartialEq, Eq)]
pub enum ChunkStep {
    /// The track was found.
    Resolved,
    /// The stream was opened, and this many bytes were announced.
    Opened { length: usize },
    /// A chunk of this size was received.
    Chunk { len: usize },
    /// No more chunks come.
    EndOfStream,
    /// All chunks are in the file.
    Flushed,
    /// The file was removed.
    Removed,
    /// The file could not be created, written or removed.
    FileFailed(String),
    /// The track could not be found, or its stream broke off. The text is the
    /// display form of the error.
    VideoFailed(String),
}

pub ghost enum ChunkStepView {
    Resolved,
    Opened { length: usize },
    Chunk { len: usize },
    EndOfStream,
    Flushed,
    Removed,
    FileFailed(Seq<char>),
    VideoFailed(Seq<char>),
}

impl View for ChunkStep {
    type V = ChunkStepView;

    open spec fn view(&self) -> ChunkStepView {
        match self {
            ChunkStep::Resolved => ChunkStepView::Resolved,
            ChunkStep::Opened { length } => ChunkStepView::Opened { length: *length },
            ChunkStep::Chunk { len } => ChunkStepView::Chunk { len: *len },
            ChunkStep::EndOfStream => ChunkStepView::EndOfStream,
            ChunkStep::Flushed => ChunkStepView::Flushed,
            ChunkStep::Removed => ChunkStepView::Removed,
            ChunkStep::FileFailed(reason) => ChunkStepView::FileFailed(reason@),
            ChunkStep::VideoFailed(e) => ChunkStepView::VideoFailed(e@),
        }
    }
}

/// What is to be done next.
#[derive(Debug, PartialEq, Eq)]
pub enum ChunkWanted {
    /// Open the stream.
    Stream,
    /// Create the file, and wait for the first chunk.
    CreateFile,
    /// Write the chunk to the file, and wait for the next one.
    WriteChunk,
    /// Flush the file.
    Flush,
    /// Remove the file.
    RemoveFile,
    /// Nothing: the download is over.
    Finished(Result<(), DownloadError>),
}

pub ghost enum ChunkWantedView {
    Stream,
    CreateFile,
    WriteChunk,
    Flush,
    RemoveFile,
    Finished(Option<DownloadErrorView>),
}

impl View for ChunkWanted {
    type V = ChunkWantedView;

    open spec fn view(&self) -> ChunkWantedView {
        match self {
            ChunkWanted::Stream => ChunkWantedView::Stream,
            ChunkWanted::CreateFile => ChunkWantedView::CreateFile,
            ChunkWanted::WriteChunk => ChunkWantedView::WriteChunk,
            ChunkWanted::Flush => ChunkWantedView::Flush,
            ChunkWanted::RemoveFile => ChunkWantedView::RemoveFile,
            ChunkWanted::Finished(r) => ChunkWantedView::Finished(failure_view(*r)),
        }
    }
}

/// The bytes in some chunks.
pub open spec fn total_of(chunks: Seq<usize>) -> nat
    decreases chunks.len(),
{
    if chunks.len() == 0 {
        0
    } else {
        total_of(chunks.drop_last()) + chunks.last() as nat
    }
}

/// A download after some chunks.
pub open spec fn after_chunks(length: usize, chunks: Seq<usize>) -> ChunkedDownload
    decreases chunks.len(),
{
    if chunks.len() == 0 {
        ChunkedDownload { total: 0, length }
    } else {
        after_chunks(length, chunks.drop_last()).with_chunk(chunks.last())
    }
}

/// A download is complete exactly when its chunks add up to the announced
/// length and that is not zero, however the bytes were cut into chunks.
pub proof fn law_complete_by_total(length: usize, chunks: Seq<usize>)
    requires
        total_of(chunks) <= usize::MAX,
    ensures
        after_chunks(length, chunks).is_complete() <==> total_of(chunks) == length && length != 0,
{
    lemma_total(length, chunks);
}

proof fn lemma_total(length: usize, chunks: Seq<usize>)
    requires
        total_of(chunks) <= usize::MAX,
    ensures
        after_chunks(length, chunks) == (ChunkedDownload {
            total: total_of(chunks) as usize,
            length,
        }),
    decreases chunks.len(),
{
    if chunks.len() > 0 {
        lemma_total(length, chunks.drop_last());
    }
}

/// A complete download is at exactly 100 %.
pub proof fn law_complete_is_full(d: ChunkedDownload)
    requires
        d.is_complete(),
    ensures
        d.status() == MusicDownloadStatus::Downloading(100),
{
    lemma_all_done(d.length as nat);
}

/// A download that has not received more than was announced is at 100 % at
/// most.
pub proof fn law_never_over_full(d: ChunkedDownload)
    requires
        d.total <= d.length,
        d.length > 0,
    ensures
        d.status() matches MusicDownloadStatus::Downloading(p) && p <= 100,
{
    lemma_part_at_most_full(d.total as nat, d.length as nat);
}

/// The reported percentage never goes back, whatever was announced.
pub proof fn law_progress_never_goes_back(d: ChunkedDownload, len: usize)
    requires
        d.total + len <= usize::MAX,
    ensures
        d.status() matches MusicDownloadStatus::Downloading(p) && (d.with_chunk(len).status()
            matches MusicDownloadStatus::Downloading(q) && p <= q),
{
    lemma_part_monotonic(d.total as nat, (d.total + len) as nat, d.length as nat);
}

/// A download whose chunks are all in the file succeeds, and reports 100, exactly
/// when the bytes received are the bytes announced and these are not none. In any
/// other case its file is to be removed and nothing is reported; and once it is
/// removed, the download fails and says how many bytes came of how many.
pub proof fn law_only_a_complete_file_is_kept(d: ChunkedDownload)
    ensures
        ({
            let complete = d.total == d.length && d.length > 0;
            &&& d.next(ChunkStepView::Flushed) == ChunkWantedView::Finished(None) <==> complete
            &&& d.reported(ChunkStepView::Flushed) == Some(MusicDownloadStatus::Downloading(100))
                <==> complete
            &&& !complete ==> d.next(ChunkStepView::Flushed) is RemoveFile
            &&& !complete ==> d.reported(ChunkStepView::Flushed) is None
            &&& d.stepped(ChunkStepView::Flushed) == d
            &&& d.reported(ChunkStepView::Removed) is None
            &&& d.next(ChunkStepView::Removed) == ChunkWantedView::Finished(
                Some(
                    DownloadErrorView::RustyYtdl(
                        "Download Error: "@ + (
                        "Downloaded file is not the same size as the content length ("@ + decimal(
                            d.total as nat,
                        ) + "/"@ + decimal(d.length as nat) + ")"@),
                    ),
                ),
            )
        }),
{
}

/// Success is told by nothing but the last look at a complete file.
pub proof fn law_no_other_success(d: ChunkedDownload, step: ChunkStepView)
    requires
        d.next(step) == ChunkWantedView::Finished(None),
    ensures
        step is Flushed,
        d.total == d.length,
        d.length > 0,
{
}

/// A download after some chunks came in, one step each.
pub open spec fn fed(d: ChunkedDownload, chunks: Seq<usize>) -> ChunkedDownload
    decreases chunks.len(),
{
    if chunks.len() == 0 {
        d
    } else {
        fed(d, chunks.drop_last()).stepped(ChunkStepView::Chunk { len: chunks.last() })
    }
}

/// From the opening of the stream to the flushed file: whatever came before, a
/// download succeeds exactly when its chunks add up to what was announced at the
/// opening and that is not zero, however the bytes were cut into chunks.
pub proof fn law_whole_stream(d: ChunkedDownload, length: usize, chunks: Seq<usize>)
    requires
        total_of(chunks) <= usize::MAX,
    ensures
        ({
            let end = fed(d.stepped(ChunkStepView::Opened { length }), chunks).stepped(
                ChunkStepView::EndOfStream,
            );
            &&& end.total == total_of(chunks)
            &&& end.length == length
            &&& end.next(ChunkStepView::Flushed) == ChunkWantedView::Finished(None)
                <==> total_of(chunks) == length && length > 0
            &&& end.next(ChunkStepView::Flushed) is RemoveFile <==> total_of(chunks) != length
                || length == 0
        }),
{
    lemma_fed(d.stepped(ChunkStepView::Opened { length }), chunks);
}

proof fn lemma_fed(d: ChunkedDownload, chunks: Seq<usize>)
    requires
        d.total + total_of(chunks) <= usize::MAX,
    ensures
        fed(d, chunks).total == d.total + total_of(chunks),
        fed(d, chunks).length == d.length,
    decreases chunks.len(),
{
    if chunks.len() > 0 {
        lemma_fed(d, chunks.drop_last());
    }
}

/// Each chunk is written and counted, and the percentage of all that came so far is
/// reported. Nothing has come when the stream is opened, and no other step changes
/// the count.
pub proof fn law_chunks_are_counted(d: ChunkedDownload, len: usize, step: ChunkStepView)
    requires
        d.total + len <= usize::MAX,
    ensures
        ({
            let chunk = ChunkStepView::Chunk { len };
            &&& d.stepped(chunk).total == d.total + len
            &&& d.stepped(chunk).length == d.length
            &&& d.next(chunk) is WriteChunk
            &&& d.reported(chunk) == Some(
                MusicDownloadStatus::Downloading(
                    done_percent_of((d.total + len) as nat, d.length as nat) as usize,
                ),
            )
        }),
        step matches ChunkStepView::Opened { length } ==> d.stepped(step).total == 0 && d.stepped(
            step,
        ).length == length,
        !(step is Opened) && !(step is Chunk) ==> d.stepped(step) == d,
{
}

/// The other steps lead on in their order: a track that was found is streamed, with
/// 0 % reported; an opened stream goes to a new file; at its end the file is
/// flushed. A failure of the file or of the video ends the download, in its own
/// words.
pub proof fn law_order_of_a_download(d: ChunkedDownload, step: ChunkStepView)
    ensures
        step is Resolved ==> d.next(step) is Stream && d.reported(step) == Some(
            MusicDownloadStatus::Downloading(0),
        ),
        step is Opened ==> d.next(step) is CreateFile && d.reported(step) is None,
        step is EndOfStream ==> d.next(step) is Flush && d.reported(step) is None,
        step matches ChunkStepView::FileFailed(reason) ==> d.reported(step) is None && d.next(step)
            == ChunkWantedView::Finished(
            Some(DownloadErrorView::RustyYtdl("Download Error: "@ + reason)),
        ),
        step matches ChunkStepView::VideoFailed(e) ==> d.reported(step) is None && d.next(step)
            == ChunkWantedView::Finished(Some(DownloadErrorView::RustyYtdl(e))),
        not_found() == d.next(ChunkStepView::VideoFailed("The video not found"@)),
{
}

} // verus!
