//! What the views of the library's types show of them.

use vstd::prelude::*;

use crate::chunked_download::{ChunkStep, ChunkStepView, ChunkWanted, ChunkWantedView};
use crate::download::{
    failure_view, message_view, DownloadError, DownloadErrorView, DownloadManagerMessage,
};
use crate::download_manager::{
    download_command_views, DownloadCommand, DownloadCommandView, DownloadManager, DownloadWanted,
    DownloadWantedView,
};
use crate::play_error::{PlayError, PlayErrorKind, PlayErrorView};
use crate::player_command::{command_views, CommandView, PlayerCommand};
use crate::player_state::{PlayerState, RebuildContext};
use crate::rebuild::{RebuildPoll, RebuildPollView, Recovery, RecoveryView};
use crate::update::{UpdateStep, UpdateStepView, Wanted, WantedView};
use crate::ytdlp::{YtDlpStep, YtDlpStepView, YtDlpWanted, YtDlpWantedView};

verus! {

/// A player is seen as it is: its tracks in their order, and every field.
pub proof fn law_player_is_seen(p: PlayerState, i: int)
    ensures
        p@.list.len() == p.list@.len(),
        0 <= i < p.list@.len() ==> p@.list[i] == p.list@[i]@,
        p@.current == p.current,
        p.rtcurrent is Some <==> p@.rtcurrent is Some,
        p.rtcurrent is Some ==> p@.rtcurrent == Some(p.rtcurrent->0@),
        p@.music_status == p.music_status@,
        p@.recovery == p.recovery,
        p@.rebuild_in_flight == p.rebuild_in_flight,
        p@.rebuild_started_at == p.rebuild_started_at,
        p.pending_requeue is Some <==> p@.pending_requeue is Some,
        p.pending_requeue is Some ==> p@.pending_requeue == Some(p.pending_requeue->0@),
        p@.last_download_list.len() == p.last_download_list@.len(),
        0 <= i < p.last_download_list@.len() ==> p@.last_download_list[i]
            == p.last_download_list@[i]@,
{
}

/// So is what is remembered for a rebuild.
pub proof fn law_context_is_seen(c: RebuildContext)
    ensures
        c@.position == c.position,
        c@.downloaded == c.downloaded,
        c@.reason == c.reason@,
        c.video is Some <==> c@.video is Some,
        c.video is Some ==> c@.video == Some(c.video->0@),
{
}

/// So is each step of a tick.
pub proof fn law_step_is_seen(step: UpdateStep)
    ensures
        match step {
            UpdateStep::Start => step@ is Start,
            UpdateStep::RebuildPolled { poll, now } => step@ == (UpdateStepView::RebuildPolled {
                poll: poll@,
                now,
            }),
            UpdateStep::StreamError { pass, error: Some(e), now, position } => step@ == (
            UpdateStepView::StreamError { pass, error: Some(e@), now, position }),
            UpdateStep::StreamError { pass, error: None, now, position } => step@ == (
            UpdateStepView::StreamError { pass, error: None, now, position }),
            UpdateStep::RebuildSpawned { pass, context, spawned, now } => step@ == (
            UpdateStepView::RebuildSpawned { pass, context: context@, spawned, now }),
            UpdateStep::SoundActionsApplied => step@ is SoundActionsApplied,
            UpdateStep::MovedOn => step@ is MovedOn,
            UpdateStep::SinkPolled { finished } => step@ == (UpdateStepView::SinkPolled {
                finished,
            }),
            UpdateStep::Played { video, error: Some(e) } => step@ == (UpdateStepView::Played {
                video: video@,
                error: Some(e@),
            }),
            UpdateStep::Played { video, error: None } => step@ == (UpdateStepView::Played {
                video: video@,
                error: None,
            }),
        },
{
}

/// So is what a tick wants next.
pub proof fn law_wanted_is_seen(w: Wanted)
    ensures
        match w {
            Wanted::RebuildResult => w@ is RebuildResult,
            Wanted::StreamError(pass) => w@ == WantedView::StreamError(pass),
            Wanted::SpawnRebuild { pass, context } => w@ == (WantedView::SpawnRebuild {
                pass,
                context: context@,
            }),
            Wanted::SoundActions => w@ is SoundActions,
            Wanted::MoveOn => w@ is MoveOn,
            Wanted::SinkState => w@ is SinkState,
            Wanted::Play(v) => w@ == WantedView::Play(v@),
            Wanted::Nothing => w@ is Nothing,
        },
{
}

/// So is each command of the player, and a list of them in its order.
pub proof fn law_command_is_seen(c: PlayerCommand, list: Seq<PlayerCommand>, i: int)
    ensures
        match c {
            PlayerCommand::SetRunning(b) => c@ == CommandView::SetRunning(b),
            PlayerCommand::UpdateControls(Some(v)) => c@ == CommandView::UpdateControls(Some(v@)),
            PlayerCommand::UpdateControls(None) => c@ == CommandView::UpdateControls(None),
            PlayerCommand::ReportError { context, error } => c@ == (CommandView::ReportError {
                context,
                error: error@,
            }),
            PlayerCommand::UseRebuiltPlayer => c@ is UseRebuiltPlayer,
            PlayerCommand::ResumeAt { path, position } => c@ == (CommandView::ResumeAt {
                path: path@,
                position,
            }),
            PlayerCommand::Pause => c@ is Pause,
            PlayerCommand::ForgetVideo(v) => c@ == CommandView::ForgetVideo(v@),
            PlayerCommand::RemoveFile { context, path } => c@ == (CommandView::RemoveFile {
                context,
                path: path@,
            }),
            PlayerCommand::SaveDatabase => c@ is SaveDatabase,
            PlayerCommand::ShowDeviceLost(s) => c@ == CommandView::ShowDeviceLost(s@),
            PlayerCommand::SetDownloadList(l) => c@ is SetDownloadList && c@->SetDownloadList_0.len()
                == l@.len() && (0 <= i < l@.len() ==> c@->SetDownloadList_0[i] == l@[i]@),
        },
        command_views(list).len() == list.len(),
        0 <= i < list.len() ==> command_views(list)[i] == list[i]@,
{
}

/// So are the failures to play, the looks at a rebuild and the answers to a device
/// problem.
pub proof fn law_recovery_is_seen(e: PlayError, poll: RebuildPoll, answer: Recovery)
    ensures
        match e {
            PlayError::Io(d) => e@ == (PlayErrorView { kind: PlayErrorKind::Io, detail: d@ }),
            PlayError::DecoderError(d) => e@ == (PlayErrorView {
                kind: PlayErrorKind::DecoderError,
                detail: d@,
            }),
            PlayError::StreamError(d) => e@ == (PlayErrorView {
                kind: PlayErrorKind::StreamError,
                detail: d@,
            }),
            PlayError::PlayError(d) => e@ == (PlayErrorView {
                kind: PlayErrorKind::PlayError,
                detail: d@,
            }),
            PlayError::SeekError(d) => e@ == (PlayErrorView {
                kind: PlayErrorKind::SeekError,
                detail: d@,
            }),
            PlayError::DeviceStreamError(d) => e@ == (PlayErrorView {
                kind: PlayErrorKind::DeviceStreamError,
                detail: d@,
            }),
        },
        match poll {
            RebuildPoll::Pending => poll@ is Pending,
            RebuildPoll::Landed => poll@ is Landed,
            RebuildPoll::Failed(e) => poll@ == RebuildPollView::Failed(e@),
        },
        match answer {
            Recovery::GiveUp => answer@ is GiveUp,
            Recovery::Ignore => answer@ is Ignore,
            Recovery::Rebuild(c) => answer@ == RecoveryView::Rebuild(c@),
        },
{
}

/// So are a download manager, its commands and what it wants.
pub proof fn law_download_is_seen(
    m: DownloadManager,
    c: DownloadCommand,
    w: DownloadWanted,
    list: Seq<DownloadCommand>,
    i: int,
)
    ensures
        m@.in_download == m.in_download@,
        m@.downloader == m.downloader,
        match c {
            DownloadCommand::Report(r) => c@ == DownloadCommandView::Report(r@),
            DownloadCommand::RemoveFile(p) => c@ == DownloadCommandView::RemoveFile(p@),
            DownloadCommand::WriteRecord(p) => c@ == DownloadCommandView::WriteRecord(p@),
            DownloadCommand::AppendToDatabase => c@ is AppendToDatabase,
        },
        match w {
            DownloadWanted::CheckRecord(p) => w@ == DownloadWantedView::CheckRecord(p@),
            DownloadWanted::CheckAudio(p) => w@ == DownloadWantedView::CheckAudio(p@),
            DownloadWanted::Download { downloader, file_name } => w@ == (
            DownloadWantedView::Download { downloader, file_name: file_name@ }),
            DownloadWanted::Recording => w@ is Recording,
            DownloadWanted::CheckLeftover(p) => w@ == DownloadWantedView::CheckLeftover(p@),
            DownloadWanted::Finished(b) => w@ == DownloadWantedView::Finished(b),
        },
        download_command_views(list).len() == list.len(),
        0 <= i < list.len() ==> download_command_views(list)[i] == list[i]@,
{
}

/// So are the reports of downloads and their errors.
pub proof fn law_report_is_seen(
    m: DownloadManagerMessage,
    e: DownloadError,
    report: Option<DownloadManagerMessage>,
    r: Result<(), DownloadError>,
)
    ensures
        match m {
            DownloadManagerMessage::VideoStatusUpdate(id, status) => m@.video_id == id@ && m@.status
                == status,
        },
        match e {
            DownloadError::YtDlpFailed(d) => e@ == DownloadErrorView::YtDlpFailed(d@),
            DownloadError::IoError(d) => e@ == DownloadErrorView::IoError(d@),
            DownloadError::RustyYtdl(d) => e@ == DownloadErrorView::RustyYtdl(d@),
        },
        report is Some ==> message_view(report) == Some(report->0@),
        report is None ==> message_view(report) is None,
        r is Ok ==> failure_view(r) is None,
        r is Err ==> failure_view(r) == Some(r->Err_0@),
{
}

/// So are the steps of the two ways to download, and what they want.
pub proof fn law_download_step_is_seen(
    a: YtDlpStep,
    b: YtDlpWanted,
    c: ChunkStep,
    d: ChunkWanted,
    i: int,
)
    ensures
        match a {
            YtDlpStep::Start => a@ is Start,
            YtDlpStep::Line(l) => a@ == YtDlpStepView::Line(l@),
            YtDlpStep::EndOfOutput => a@ is EndOfOutput,
            YtDlpStep::Exited { success, stderr } => a@ == (YtDlpStepView::Exited {
                success,
                stderr: stderr@,
            }),
            YtDlpStep::IoFailed(e) => a@ == YtDlpStepView::IoFailed(e@),
        },
        match b {
            YtDlpWanted::Run(l) => b@ is Run && b@->Run_0.len() == l@.len() && (0 <= i < l@.len()
                ==> b@->Run_0[i] == l@[i]@),
            YtDlpWanted::NextLine => b@ is NextLine,
            YtDlpWanted::Exit => b@ is Exit,
            YtDlpWanted::Finished(Ok(_)) => b@ == YtDlpWantedView::Finished(None),
            YtDlpWanted::Finished(Err(e)) => b@ == YtDlpWantedView::Finished(Some(e@)),
        },
        match c {
            ChunkStep::Resolved => c@ is Resolved,
            ChunkStep::Opened { length } => c@ == (ChunkStepView::Opened { length }),
            ChunkStep::Chunk { len } => c@ == (ChunkStepView::Chunk { len }),
            ChunkStep::EndOfStream => c@ is EndOfStream,
            ChunkStep::Flushed => c@ is Flushed,
            ChunkStep::Removed => c@ is Removed,
            ChunkStep::FileFailed(e) => c@ == ChunkStepView::FileFailed(e@),
            ChunkStep::VideoFailed(e) => c@ == ChunkStepView::VideoFailed(e@),
        },
        match d {
            ChunkWanted::Stream => d@ is Stream,
            ChunkWanted::CreateFile => d@ is CreateFile,
            ChunkWanted::WriteChunk => d@ is WriteChunk,
            ChunkWanted::Flush => d@ is Flush,
            ChunkWanted::RemoveFile => d@ is RemoveFile,
            ChunkWanted::Finished(Ok(_)) => d@ == ChunkWantedView::Finished(None),
            ChunkWanted::Finished(Err(e)) => d@ == ChunkWantedView::Finished(Some(e@)),
        },
{
}

} // verus!
