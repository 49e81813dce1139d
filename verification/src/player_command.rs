//! What the player asks of its surroundings.

use vstd::prelude::*;

use crate::clock::Duration;
use crate::play_error::{PlayError, PlayErrorView};
use crate::player_state::{video_view, video_views};
use crate::video::{VideoView, YoutubeMusicVideoRef};

verus! {

/// Under which heading an error is reported.
#[derive(Debug, Clone, Copy, PartialEq, Eq, Structural)]
pub enum ErrorContext {
    DeviceStream,
    DeviceRecovery,
    CleanMp4,
    CleanJson,
}

impl ErrorContext {
    pub open spec fn heading_of(self) -> Seq<char> {
        match self {
            ErrorContext::DeviceStream => "audio device stream error"@,
            ErrorContext::DeviceRecovery => "audio device recovery failed"@,
            ErrorContext::CleanMp4 => "invalid cleaning MP4"@,
            ErrorContext::CleanJson => "invalid cleaning JSON"@,
        }
    }

    /// The heading as the user reads it.
    pub fn heading(self) -> (s: &'static str)
        ensures
            s@ == self.heading_of(),
    {
        match self {
            Self::DeviceStream => "audio device stream error",
            Self::DeviceRecovery => "audio device recovery failed",
            Self::CleanMp4 => "invalid cleaning MP4",
            Self::CleanJson => "invalid cleaning JSON",
        }
    }
}

/// An order to the surroundings that needs no answer.
#[derive(Debug, PartialEq, Eq)]
pub enum PlayerCommand {
    /// Publish whether there is a current track.
    SetRunning(bool),
    /// Show the current track on the media controls.
    UpdateControls(Option<YoutubeMusicVideoRef>),
    /// Report an error to the user.
    ReportError { context: ErrorContext, error: PlayError },
    /// Replace the player by the rebuilt one.
    UseRebuiltPlayer,
    /// Queue the file, at a position.
    ResumeAt { path: String, position: Duration },
    /// Pause the player.
    Pause,
    /// Remove the track from the database.
    ForgetVideo(YoutubeMusicVideoRef),
    /// Remove a file of the cache; report a failure under the heading.
    RemoveFile { context: ErrorContext, path: String },
    /// Write the database to disk.
    SaveDatabase,
    /// Show the screen for a lost device, with an error.
    ShowDeviceLost(String),
    /// Hand the tracks to the downloader.
    SetDownloadList(Vec<YoutubeMusicVideoRef>),
}

pub ghost enum CommandView {
    SetRunning(bool),
    UpdateControls(Option<VideoView>),
    ReportError { context: ErrorContext, error: PlayErrorView },
    UseRebuiltPlayer,
    ResumeAt { path: Seq<char>, position: Duration },
    Pause,
    ForgetVideo(VideoView),
    RemoveFile { context: ErrorContext, path: Seq<char> },
    SaveDatabase,
    ShowDeviceLost(Seq<char>),
    SetDownloadList(Seq<VideoView>),
}

impl View for PlayerCommand {
    type V = CommandView;

    open spec fn view(&self) -> CommandView {
        match self {
            PlayerCommand::SetRunning(b) => CommandView::SetRunning(*b),
            PlayerCommand::UpdateControls(v) => CommandView::UpdateControls(video_view(*v)),
            PlayerCommand::ReportError { context, error } => CommandView::ReportError {
                context: *context,
                error: error@,
            },
            PlayerCommand::UseRebuiltPlayer => CommandView::UseRebuiltPlayer,
            PlayerCommand::ResumeAt { path, position } => CommandView::ResumeAt {
                path: path@,
                position: *position,
            },
            PlayerCommand::Pause => CommandView::Pause,
            PlayerCommand::ForgetVideo(v) => CommandView::ForgetVideo(v@),
            PlayerCommand::RemoveFile { context, path } => CommandView::RemoveFile {
                context: *context,
                path: path@,
            },
            PlayerCommand::SaveDatabase => CommandView::SaveDatabase,
            PlayerCommand::ShowDeviceLost(s) => CommandView::ShowDeviceLost(s@),
            PlayerCommand::SetDownloadList(l) => CommandView::SetDownloadList(video_views(l@)),
        }
    }
}

pub open spec fn command_views(c: Seq<PlayerCommand>) -> Seq<CommandView> {
    c.map_values(|c: PlayerCommand| c@)
}

/// The report that the audio device could not be recovered.
pub open spec fn recovery_failed(error: PlayErrorView) -> CommandView {
    CommandView::ReportError { context: ErrorContext::DeviceRecovery, error }
}

/// No commands.
pub fn nothing() -> (r: Vec<PlayerCommand>)
    ensures
        command_views(r@) == Seq::<CommandView>::empty(),
{
    let r: Vec<PlayerCommand> = Vec::new();
    assert(command_views(r@) =~= Seq::<CommandView>::empty());
    r
}

/// Adds a command at the end.
pub fn add_command(list: &mut Vec<PlayerCommand>, c: PlayerCommand)
    ensures
        command_views(final(list)@) == command_views(old(list)@).push(c@),
{
    list.push(c);
    assert(command_views(list@) =~= command_views(old(list)@).push(c@));
}

/// One command.
pub fn only(c: PlayerCommand) -> (r: Vec<PlayerCommand>)
    ensures
        command_views(r@) == seq![c@],
{
    let mut r = nothing();
    add_command(&mut r, c);
    assert(command_views(r@) =~= seq![c@]);
    r
}

/// The headings under which errors are reported, each its own.
pub proof fn law_headings(a: ErrorContext, b: ErrorContext)
    ensures
        ErrorContext::DeviceStream.heading_of() == "audio device stream error"@,
        ErrorContext::DeviceRecovery.heading_of() == "audio device recovery failed"@,
        ErrorContext::CleanMp4.heading_of() == "invalid cleaning MP4"@,
        ErrorContext::CleanJson.heading_of() == "invalid cleaning JSON"@,
        a != b ==> a.heading_of() != b.heading_of(),
{
    reveal_strlit("audio device stream error");
    reveal_strlit("audio device recovery failed");
    reveal_strlit("invalid cleaning MP4");
    reveal_strlit("invalid cleaning JSON");
    assert("audio device stream error"@.len() == 25);
    assert("audio device recovery failed"@.len() == 28);
    assert("invalid cleaning MP4"@.len() == 20);
    assert("invalid cleaning JSON"@.len() == 21);
}

} // verus!
