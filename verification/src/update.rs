//! One tick of the player.
//!
//! A tick alternates between decisions, which are made here, and work that
//! only the surroundings can do. [`PlayerState::update`] takes what the
//! surroundings found out, and returns what they are to do and to find out
//! next. A tick begins with [`UpdateStep::Start`] and is over when
//! [`Wanted::Nothing`] is wanted.

use vstd::prelude::*;

use crate::clock::{Duration, Instant};
use crate::play_error::{PlayError, PlayErrorView};
use crate::player_command::{
    add_command, command_views, nothing, only, recovery_failed, CommandView, ErrorContext,
    PlayerCommand,
};
use crate::player_state::{
    video_views, PlayerState, PlayerView, RebuildContext, RebuildContextView,
};
use crate::rebuild::{Recovery, RecoveryView, RebuildPoll, RebuildPollView};
use crate::status_table::all_ticked;
use crate::text::text_views;
use crate::video::{
    json_path, json_path_of, mp4_path, mp4_path_of, VideoView, YoutubeMusicVideoRef,
};

verus! {

/// The stream errors are handled twice in a tick: at its beginning, and before
/// the next track is played.
#[derive(Debug, Clone, Copy, PartialEq, Eq, Structural)]
pub enum Pass {
    First,
    Second,
}

/// What the surroundings found out.
#[derive(Debug, PartialEq, Eq)]
pub enum UpdateStep {
    /// A tick begins.
    Start,
    /// The result of the rebuild in flight was looked for.
    RebuildPolled { poll: RebuildPoll, now: Instant },
    /// The next stream error was taken from the queue, if there is one.
    /// `position` is where the player is.
    StreamError { pass: Pass, error: Option<PlayError>, now: Instant, position: Duration },
    /// The worker of a rebuild was started, or could not be.
    RebuildSpawned { pass: Pass, context: RebuildContext, spawned: bool, now: Instant },
    /// All waiting sound actions were applied to the player.
    SoundActionsApplied,
    /// The player was moved on by one track.
    MovedOn,
    /// Whether the sink has played to its end.
    SinkPolled { finished: bool },
    /// The track was given to the sink.
    Played { video: YoutubeMusicVideoRef, error: Option<PlayError> },
}

pub ghost enum UpdateStepView {
    Start,
    RebuildPolled { poll: RebuildPollView, now: Instant },
    StreamError { pass: Pass, error: Option<PlayErrorView>, now: Instant, position: Duration },
    RebuildSpawned { pass: Pass, context: RebuildContextView, spawned: bool, now: Instant },
    SoundActionsApplied,
    MovedOn,
    SinkPolled { finished: bool },
    Played { video: VideoView, error: Option<PlayErrorView> },
}

pub open spec fn error_view(e: Option<PlayError>) -> Option<PlayErrorView> {
    match e {
        Some(e) => Some(e@),
        None => None,
    }
}

impl View for UpdateStep {
    type V = UpdateStepView;

    open spec fn view(&self) -> UpdateStepView {
        match self {
            UpdateStep::Start => UpdateStepView::Start,
            UpdateStep::RebuildPolled { poll, now } => UpdateStepView::RebuildPolled {
                poll: poll@,
                now: *now,
            },
            UpdateStep::StreamError { pass, error, now, position } => UpdateStepView::StreamError {
                pass: *pass,
                error: error_view(*error),
                now: *now,
                position: *position,
            },
            UpdateStep::RebuildSpawned { pass, context, spawned, now } =>
            UpdateStepView::RebuildSpawned {
                pass: *pass,
                context: context@,
                spawned: *spawned,
                now: *now,
            },
            UpdateStep::SoundActionsApplied => UpdateStepView::SoundActionsApplied,
            UpdateStep::MovedOn => UpdateStepView::MovedOn,
            UpdateStep::SinkPolled { finished } => UpdateStepView::SinkPolled {
                finished: *finished,
            },
            UpdateStep::Played { video, error } => UpdateStepView::Played {
                video: video@,
                error: error_view(*error),
            },
        }
    }
}

/// What the surroundings are to find out next.
#[derive(Debug, PartialEq, Eq)]
pub enum Wanted {
    /// Look for the result of the rebuild in flight.
    RebuildResult,
    /// Take the next stream error from the queue.
    StreamError(Pass),
    /// Start the worker of a rebuild.
    SpawnRebuild { pass: Pass, context: RebuildContext },
    /// Apply all waiting sound actions to the player.
    SoundActions,
    /// Move the player on by one track, as the sound action for it does.
    MoveOn,
    /// Ask whether the sink has played to its end.
    SinkState,
    /// Play the track from the cache.
    Play(YoutubeMusicVideoRef),
    /// Nothing: the tick is over.
    Nothing,
}

pub ghost enum WantedView {
    RebuildResult,
    StreamError(Pass),
    SpawnRebuild { pass: Pass, context: RebuildContextView },
    SoundActions,
    MoveOn,
    SinkState,
    Play(VideoView),
    Nothing,
}

impl View for Wanted {
    type V = WantedView;

    open spec fn view(&self) -> WantedView {
        match self {
            Wanted::RebuildResult => WantedView::RebuildResult,
            Wanted::StreamError(pass) => WantedView::StreamError(*pass),
            Wanted::SpawnRebuild { pass, context } => WantedView::SpawnRebuild {
                pass: *pass,
                context: context@,
            },
            Wanted::SoundActions => WantedView::SoundActions,
            Wanted::MoveOn => WantedView::MoveOn,
            Wanted::SinkState => WantedView::SinkState,
            Wanted::Play(v) => WantedView::Play(v@),
            Wanted::Nothing => WantedView::Nothing,
        }
    }
}

/// What follows from a step.
pub ghost struct Outcome {
    pub player: PlayerView,
    pub commands: Seq<CommandView>,
    pub wanted: WantedView,
}

/// Why a stream error leads to a rebuild.
pub open spec fn stream_error_reason() -> Seq<char> {
    "device stream error"@
}

impl PlayerView {
    /// The player publishes its current track and turns to the stream errors.
    pub open spec fn announced(self, before: Seq<CommandView>) -> Outcome {
        Outcome {
            player: self,
            commands: before + seq![
                CommandView::SetRunning(self.current_video() is Some),
                CommandView::UpdateControls(self.current_video()),
            ],
            wanted: WantedView::StreamError(Pass::First),
        }
    }

    /// The answer to a stream error. Only a lost device leads to a rebuild; any
    /// other error is reported.
    pub open spec fn on_stream_error(
        self,
        pass: Pass,
        error: PlayErrorView,
        now: Instant,
        position: Duration,
    ) -> Outcome {
        if !error.is_device_loss() {
            Outcome {
                player: self,
                commands: seq![
                    CommandView::ReportError { context: ErrorContext::DeviceStream, error },
                ],
                wanted: WantedView::StreamError(pass),
            }
        } else {
            let player = self.after_recovery_request(now);
            match self.recovery_for(stream_error_reason(), now, position) {
                RecoveryView::GiveUp => Outcome {
                    player,
                    commands: seq![recovery_failed(PlayErrorView::no_device())],
                    wanted: WantedView::StreamError(pass),
                },
                RecoveryView::Ignore => Outcome {
                    player,
                    commands: seq![],
                    wanted: WantedView::StreamError(pass),
                },
                RecoveryView::Rebuild(context) => Outcome {
                    player,
                    commands: seq![],
                    wanted: WantedView::SpawnRebuild { pass, context },
                },
            }
        }
    }

    /// A tick passes for the downloads, and the position stays in the playlist.
    pub open spec fn aged(self) -> Self {
        PlayerView { music_status: all_ticked(self.music_status), ..self }.clamped()
    }

    /// When the sink is finished, the track that it played is left behind.
    pub open spec fn after_finished(self) -> Self {
        if self.current_downloaded() && self.rtcurrent == self.current_video() {
            self.moved_by(1)
        } else {
            self
        }
    }

    /// The sink plays on.
    pub open spec fn still_playing(self) -> Self {
        PlayerView { rtcurrent: self.current_video(), ..self }
    }

    /// The next track that did not fail is played, if it is downloaded.
    pub open spec fn play_next(self) -> Outcome {
        let shown = seq![CommandView::UpdateControls(self.current_video())];
        let player = self.past_failed();
        if player.current_downloaded() {
            Outcome {
                player,
                commands: shown,
                wanted: WantedView::Play(player.current_video()->0),
            }
        } else {
            player.tick_over(shown)
        }
    }

    /// The answer to a track that could not be played. A file that cannot be
    /// decoded is removed from the cache; anything else is shown as a lost
    /// device.
    pub open spec fn on_play_error(self, video: VideoView, error: PlayErrorView) -> Outcome {
        if error.kind is DecoderError {
            PlayerView { current: 0, ..self }.tick_over(
                seq![
                    CommandView::ForgetVideo(video),
                    CommandView::RemoveFile {
                        context: ErrorContext::CleanMp4,
                        path: mp4_path_of(video.video_id),
                    },
                    CommandView::RemoveFile {
                        context: ErrorContext::CleanJson,
                        path: json_path_of(video.video_id),
                    },
                    CommandView::SaveDatabase,
                ],
            )
        } else {
            self.tick_over(seq![CommandView::ShowDeviceLost(error.text())])
        }
    }

    /// The tick ends: the downloader gets a new list where it has changed.
    pub open spec fn tick_over(self, before: Seq<CommandView>) -> Outcome {
        if self.download_ids() == self.last_download_list {
            Outcome { player: self, commands: before, wanted: WantedView::Nothing }
        } else {
            Outcome {
                player: PlayerView { last_download_list: self.download_ids(), ..self },
                commands: before.push(CommandView::SetDownloadList(self.download_list())),
                wanted: WantedView::Nothing,
            }
        }
    }

    /// What follows from a step of a tick.
    pub open spec fn updated(self, step: UpdateStepView) -> Outcome {
        match step {
            UpdateStepView::Start => if self.rebuild_in_flight {
                Outcome { player: self, commands: seq![], wanted: WantedView::RebuildResult }
            } else {
                self.announced(seq![])
            },
            UpdateStepView::RebuildPolled { poll, now } => self.after_rebuild_poll(
                poll,
                now,
            ).announced(self.rebuild_poll_commands(poll, now)),
            UpdateStepView::StreamError { pass, error: Some(e), now, position } =>
            self.on_stream_error(pass, e, now, position),
            UpdateStepView::StreamError { pass, error: None, now, position } => match pass {
                Pass::First => Outcome {
                    player: self.aged(),
                    commands: seq![],
                    wanted: WantedView::SoundActions,
                },
                Pass::Second => self.play_next(),
            },
            UpdateStepView::RebuildSpawned { pass, context, spawned, now } => if spawned {
                Outcome {
                    player: self.rebuilding(context, now),
                    commands: seq![],
                    wanted: WantedView::StreamError(pass),
                }
            } else {
                Outcome {
                    player: PlayerView { recovery: self.recovery.failed(), ..self },
                    commands: seq![recovery_failed(PlayErrorView::no_device())],
                    wanted: WantedView::StreamError(pass),
                }
            },
            UpdateStepView::SoundActionsApplied => Outcome {
                player: self,
                commands: seq![],
                wanted: if self.current_failed() {
                    WantedView::MoveOn
                } else {
                    WantedView::SinkState
                },
            },
            UpdateStepView::MovedOn => Outcome {
                player: self,
                commands: seq![],
                wanted: WantedView::SinkState,
            },
            UpdateStepView::SinkPolled { finished } => if finished {
                Outcome {
                    player: self.after_finished(),
                    commands: seq![],
                    wanted: WantedView::StreamError(Pass::Second),
                }
            } else {
                self.still_playing().tick_over(seq![])
            },
            UpdateStepView::Played { video, error } => match error {
                Some(e) => self.on_play_error(video, e),
                None => self.tick_over(seq![]),
            },
        }
    }
}

/// Whether the tracks have the given ids, in the same order.
fn same_ids(videos: &Vec<YoutubeMusicVideoRef>, ids: &Vec<String>) -> (r: bool)
    ensures
        r == (video_views(videos@).map_values(|v: VideoView| v.video_id) == text_views(ids@)),
{
    let ghost a = video_views(videos@).map_values(|v: VideoView| v.video_id);
    let ghost b = text_views(ids@);
    assert(a.len() == videos.len() && b.len() == ids.len());
    if videos.len() != ids.len() {
        return false;
    }
    let mut i: usize = 0;
    while i < ids.len()
        invariant
            i <= ids.len() == videos.len(),
            a == video_views(videos@).map_values(|v: VideoView| v.video_id),
            b == text_views(ids@),
            forall|k: int| 0 <= k < i ==> a[k] == b[k],
        decreases ids.len() - i,
    {
        assert(a[i as int] == videos@[i as int].video_id@);
        assert(b[i as int] == ids@[i as int]@);
        if videos[i].video_id != ids[i] {
            return false;
        }
        i += 1;
    }
    assert(a =~= b);
    true
}

/// The ids of tracks.
fn ids_of(videos: &Vec<YoutubeMusicVideoRef>) -> (ids: Vec<String>)
    ensures
        text_views(ids@) == video_views(videos@).map_values(|v: VideoView| v.video_id),
{
    let ghost a = video_views(videos@).map_values(|v: VideoView| v.video_id);
    let mut ids: Vec<String> = Vec::new();
    let mut i: usize = 0;
    while i < videos.len()
        invariant
            i <= videos.len(),
            ids.len() == i,
            a == video_views(videos@).map_values(|v: VideoView| v.video_id),
            forall|k: int| 0 <= k < i ==> (#[trigger] ids@[k])@ == a[k],
        decreases videos.len() - i,
    {
        assert(a[i as int] == videos@[i as int].video_id@);
        ids.push(videos[i].video_id.clone());
        i += 1;
    }
    assert(text_views(ids@) =~= a);
    ids
}

impl PlayerState {
    /// Does the part of a tick that follows from `step`.
    pub fn update(&mut self, step: UpdateStep) -> (r: (Vec<PlayerCommand>, Wanted))
        ensures
            ({
                let next = old(self)@.updated(step@);
                &&& final(self)@ == next.player
                &&& command_views(r.0@) == next.commands
                &&& r.1@ == next.wanted
            }),
    {
        match step {
            UpdateStep::Start => {
                if self.rebuild_in_flight {
                    (nothing(), Wanted::RebuildResult)
                } else {
                    let mut commands = nothing();
                    self.announce(&mut commands);
                    (commands, Wanted::StreamError(Pass::First))
                }
            },
            UpdateStep::RebuildPolled { poll, now } => {
                let mut commands = self.apply_rebuild_result(poll, now);
                self.announce(&mut commands);
                (commands, Wanted::StreamError(Pass::First))
            },
            UpdateStep::StreamError { pass, error, now, position } => match error {
                Some(error) => self.handle_stream_error(pass, error, now, position),
                None => match pass {
                    Pass::First => {
                        self.music_status.tick();
                        if self.current > self.list.len() {
                            self.current = self.list.len();
                        }
                        (nothing(), Wanted::SoundActions)
                    },
                    Pass::Second => self.play_next(),
                },
            },
            UpdateStep::RebuildSpawned { pass, context, spawned, now } => {
                if spawned {
                    self.rebuild_spawned(context, now);
                    (nothing(), Wanted::StreamError(pass))
                } else {
                    (self.rebuild_not_spawned(), Wanted::StreamError(pass))
                }
            },
            UpdateStep::SoundActionsApplied => {
                if self.is_current_download_failed() {
                    (nothing(), Wanted::MoveOn)
                } else {
                    (nothing(), Wanted::SinkState)
                }
            },
            UpdateStep::MovedOn => (nothing(), Wanted::SinkState),
            UpdateStep::SinkPolled { finished } => {
                if finished {
                    self.leave_finished();
                    (nothing(), Wanted::StreamError(Pass::Second))
                } else {
                    self.rtcurrent = self.current_cloned();
                    let mut commands = nothing();
                    self.finish_tick(&mut commands);
                    (commands, Wanted::Nothing)
                }
            },
            UpdateStep::Played { video, error } => {
                let mut commands = nothing();
                if let Some(error) = error {
                    self.handle_play_error(video, error, &mut commands);
                }
                self.finish_tick(&mut commands);
                (commands, Wanted::Nothing)
            },
        }
    }

    /// Publishes the current track.
    fn announce(&self, commands: &mut Vec<PlayerCommand>)
        ensures
            command_views(final(commands)@) == self@.announced(
                command_views(old(commands)@),
            ).commands,
    {
        let ghost before = command_views(commands@);
        add_command(commands, PlayerCommand::SetRunning(self.current().is_some()));
        add_command(commands, PlayerCommand::UpdateControls(self.current_cloned()));
        assert(command_views(commands@) =~= self@.announced(before).commands);
    }

    /// Answers a stream error. File, decoder and seek problems are reported;
    /// a problem of the device itself is recovered from by rebuilding the
    /// stream.
    pub fn handle_stream_error(
        &mut self,
        pass: Pass,
        error: PlayError,
        now: Instant,
        position: Duration,
    ) -> (r: (Vec<PlayerCommand>, Wanted))
        ensures
            ({
                let next = old(self)@.on_stream_error(pass, error@, now, position);
                &&& final(self)@ == next.player
                &&& command_views(r.0@) == next.commands
                &&& r.1@ == next.wanted
            }),
    {
        if !error.is_device_loss() {
            return (
                only(PlayerCommand::ReportError { context: ErrorContext::DeviceStream, error }),
                Wanted::StreamError(pass),
            );
        }
        match self.request_recovery("device stream error", now, position) {
            Recovery::GiveUp => (
                only(
                    PlayerCommand::ReportError {
                        context: ErrorContext::DeviceRecovery,
                        error: PlayError::no_device(),
                    },
                ),
                Wanted::StreamError(pass),
            ),
            Recovery::Ignore => (nothing(), Wanted::StreamError(pass)),
            Recovery::Rebuild(context) => (nothing(), Wanted::SpawnRebuild { pass, context }),
        }
    }

    /// Leaves the track behind that the sink has played to its end.
    fn leave_finished(&mut self)
        ensures
            final(self)@ == old(self)@.after_finished(),
    {
        if self.is_current_downloaded() {
            let played = match (&self.rtcurrent, self.current()) {
                (Some(a), Some(b)) => a.same(b),
                _ => false,
            };
            if played {
                self.set_relative_current(1);
            }
        }
    }

    /// Goes to the next track that did not fail to download.
    fn play_next(&mut self) -> (r: (Vec<PlayerCommand>, Wanted))
        ensures
            ({
                let next = old(self)@.play_next();
                &&& final(self)@ == next.player
                &&& command_views(r.0@) == next.commands
                &&& r.1@ == next.wanted
            }),
    {
        let mut commands = only(PlayerCommand::UpdateControls(self.current_cloned()));
        self.skip_failed();
        if self.is_current_downloaded() {
            if let Some(video) = self.current_cloned() {
                return (commands, Wanted::Play(video));
            }
        }
        self.finish_tick(&mut commands);
        (commands, Wanted::Nothing)
    }

    /// Cleans up after a track that could not be played.
    fn handle_play_error(
        &mut self,
        video: YoutubeMusicVideoRef,
        error: PlayError,
        commands: &mut Vec<PlayerCommand>,
    )
        requires
            command_views(old(commands)@) == Seq::<CommandView>::empty(),
        ensures
            final(self)@.tick_over(command_views(final(commands)@)) == old(self)@.on_play_error(
                video@,
                error@,
            ),
    {
        let undecodable = match &error {
            PlayError::DecoderError(_) => true,
            _ => false,
        };
        if undecodable {
            let mp4 = mp4_path(video.video_id.as_str());
            let json = json_path(video.video_id.as_str());
            add_command(commands, PlayerCommand::ForgetVideo(video));
            add_command(
                commands,
                PlayerCommand::RemoveFile { context: ErrorContext::CleanMp4, path: mp4 },
            );
            add_command(
                commands,
                PlayerCommand::RemoveFile { context: ErrorContext::CleanJson, path: json },
            );
            self.current = 0;
            add_command(commands, PlayerCommand::SaveDatabase);
            assert(command_views(commands@) =~= seq![
                CommandView::ForgetVideo(video@),
                CommandView::RemoveFile {
                    context: ErrorContext::CleanMp4,
                    path: mp4_path_of(video@.video_id),
                },
                CommandView::RemoveFile {
                    context: ErrorContext::CleanJson,
                    path: json_path_of(video@.video_id),
                },
                CommandView::SaveDatabase,
            ]);
        } else {
            add_command(commands, PlayerCommand::ShowDeviceLost(error.text()));
            assert(command_views(commands@) =~= seq![
                CommandView::ShowDeviceLost(error@.text()),
            ]);
        }
    }

    /// Hands the downloader a new list where it has changed.
    fn finish_tick(&mut self, commands: &mut Vec<PlayerCommand>)
        ensures
            ({
                let next = old(self)@.tick_over(command_views(old(commands)@));
                &&& final(self)@ == next.player
                &&& command_views(final(commands)@) == next.commands
            }),
    {
        let list = self.tracks_to_download();
        if !same_ids(&list, &self.last_download_list) {
            self.last_download_list = ids_of(&list);
            add_command(commands, PlayerCommand::SetDownloadList(list));
        }
    }
}

} // verus!
