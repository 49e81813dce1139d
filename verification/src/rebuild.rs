//! Recovery of the audio device by rebuilding its stream.
//!
//! Opening a stream on a wedged device can block indefinitely, so the rebuild
//! runs on a worker; the player only ever swaps in its result.

use vstd::prelude::*;
use vstd::string::StringExecFns;

use crate::clock::{elapsed, Duration, Instant};
use crate::play_error::{PlayError, PlayErrorView};
use crate::player_command::{
    add_command, command_views, nothing, only, recovery_failed, CommandView, ErrorContext,
    PlayerCommand,
};
use crate::player_state::{
    context_view, PlayerState, PlayerView, RebuildContext, RebuildContextView,
};
use crate::video::{mp4_path, mp4_path_of};

verus! {

/// How long a rebuild worker may take before it is treated as hung, in
/// nanoseconds. The worker itself keeps running and is harmless; the player
/// only stops waiting and counts the attempt as a failure.
pub const REBUILD_TIMEOUT: u128 = 10_000_000_000;

/// What became of the rebuild in flight.
#[derive(Debug, PartialEq, Eq)]
pub enum RebuildPoll {
    /// The worker has not finished.
    Pending,
    /// The worker delivered a new player.
    Landed,
    /// The worker could not open the device.
    Failed(PlayError),
}

pub ghost enum RebuildPollView {
    Pending,
    Landed,
    Failed(PlayErrorView),
}

impl View for RebuildPoll {
    type V = RebuildPollView;

    open spec fn view(&self) -> RebuildPollView {
        match self {
            RebuildPoll::Pending => RebuildPollView::Pending,
            RebuildPoll::Landed => RebuildPollView::Landed,
            RebuildPoll::Failed(e) => RebuildPollView::Failed(e@),
        }
    }
}

/// What to do about a device problem.
#[derive(Debug, PartialEq, Eq)]
pub enum Recovery {
    /// Recovery was given up; the error is to be reported.
    GiveUp,
    /// A rebuild is in flight or was attempted too recently.
    Ignore,
    /// A rebuild is to be started.
    Rebuild(RebuildContext),
}

pub ghost enum RecoveryView {
    GiveUp,
    Ignore,
    Rebuild(RebuildContextView),
}

impl View for Recovery {
    type V = RecoveryView;

    open spec fn view(&self) -> RecoveryView {
        match self {
            Recovery::GiveUp => RecoveryView::GiveUp,
            Recovery::Ignore => RecoveryView::Ignore,
            Recovery::Rebuild(c) => RecoveryView::Rebuild(c@),
        }
    }
}

impl PlayerView {
    /// The three fields that describe a rebuild in flight agree.
    pub open spec fn rebuild_consistent(self) -> bool {
        &&& self.rebuild_in_flight <==> self.rebuild_started_at is Some
        &&& self.rebuild_in_flight <==> self.pending_requeue is Some
    }

    /// What is remembered of the player when a rebuild starts.
    pub open spec fn rebuild_context(
        self,
        reason: Seq<char>,
        position: Duration,
    ) -> RebuildContextView {
        RebuildContextView {
            position,
            video: self.current_video(),
            downloaded: self.current_downloaded(),
            reason,
        }
    }

    /// The answer to a device problem.
    pub open spec fn recovery_for(
        self,
        reason: Seq<char>,
        now: Instant,
        position: Duration,
    ) -> RecoveryView {
        if self.recovery.gave_up() {
            RecoveryView::GiveUp
        } else if self.rebuild_in_flight || !self.recovery.allows(now) {
            RecoveryView::Ignore
        } else {
            RecoveryView::Rebuild(self.rebuild_context(reason, position))
        }
    }

    /// The player after it answered a device problem.
    pub open spec fn after_recovery_request(self, now: Instant) -> Self {
        if !self.recovery.gave_up() && !self.rebuild_in_flight && self.recovery.allows(now) {
            PlayerView { recovery: self.recovery.attempted(now), ..self }
        } else {
            self
        }
    }

    /// The answer to a retry that the user asked for.
    pub open spec fn manual_retry(self, position: Duration) -> Option<RebuildContextView> {
        if self.rebuild_in_flight {
            None
        } else {
            Some(self.rebuild_context("manual retry"@, position))
        }
    }

    /// The player while a rebuild runs.
    pub open spec fn rebuilding(self, context: RebuildContextView, now: Instant) -> Self {
        PlayerView {
            rebuild_in_flight: true,
            rebuild_started_at: Some(now),
            pending_requeue: Some(context),
            ..self
        }
    }

    /// The player that waits for no rebuild.
    pub open spec fn not_rebuilding(self) -> Self {
        PlayerView {
            rebuild_in_flight: false,
            rebuild_started_at: None,
            pending_requeue: None,
            ..self
        }
    }

    /// The player after a rebuild failed.
    pub open spec fn rebuild_failed(self) -> Self {
        PlayerView { recovery: self.recovery.failed(), ..self.not_rebuilding() }
    }

    /// The player after a rebuild landed.
    pub open spec fn rebuilt(self) -> Self {
        PlayerView { recovery: self.recovery.succeeded(), ..self.not_rebuilding() }
    }

    /// Whether the rebuild in flight is overdue.
    pub open spec fn rebuild_overdue(self, now: Instant) -> bool {
        self.rebuild_started_at matches Some(started) && elapsed(started, now) >= REBUILD_TIMEOUT
    }

    pub open spec fn after_rebuild_poll(self, poll: RebuildPollView, now: Instant) -> Self {
        if !self.rebuild_in_flight {
            self
        } else {
            match poll {
                RebuildPollView::Landed => self.rebuilt(),
                RebuildPollView::Failed(_) => self.rebuild_failed(),
                RebuildPollView::Pending => if self.rebuild_overdue(now) {
                    self.rebuild_failed()
                } else {
                    self
                },
            }
        }
    }

    /// Whether the track of a rebuild is to be queued again: it was downloaded
    /// and is still the current one.
    pub open spec fn requeues(self, context: RebuildContextView) -> bool {
        &&& context.downloaded
        &&& context.video matches Some(v) && self.current_video() matches Some(c) && c.video_id
            == v.video_id
    }

    /// How a rebuilt player is set up: the track of the rebuild is queued again
    /// where it was, and the player is paused in any case.
    pub open spec fn requeue_commands(self, context: RebuildContextView) -> Seq<CommandView> {
        if self.requeues(context) {
            seq![
                CommandView::ResumeAt {
                    path: mp4_path_of(context.video->0.video_id),
                    position: context.position,
                },
                CommandView::Pause,
            ]
        } else {
            seq![CommandView::Pause]
        }
    }

    pub open spec fn rebuild_poll_commands(
        self,
        poll: RebuildPollView,
        now: Instant,
    ) -> Seq<CommandView> {
        if !self.rebuild_in_flight {
            seq![]
        } else {
            match poll {
                RebuildPollView::Landed => seq![CommandView::UseRebuiltPlayer]
                    + match self.pending_requeue {
                    Some(context) => self.requeue_commands(context),
                    None => seq![CommandView::Pause],
                },
                RebuildPollView::Failed(e) => seq![recovery_failed(e)],
                RebuildPollView::Pending => if self.rebuild_overdue(now) {
                    seq![recovery_failed(PlayErrorView::no_device())]
                } else {
                    seq![]
                },
            }
        }
    }
}

impl PlayerState {
    /// Decides about a device problem. This is the single entry point for any
    /// of them: rebuilds are limited in rate, and given up after repeated
    /// failures.
    pub fn request_recovery(&mut self, reason: &str, now: Instant, position: Duration) -> (r:
        Recovery)
        ensures
            r@ == old(self)@.recovery_for(reason@, now, position),
            final(self)@ == old(self)@.after_recovery_request(now),
    {
        if self.recovery.exhausted() {
            return Recovery::GiveUp;
        }
        if self.rebuild_in_flight {
            return Recovery::Ignore;
        }
        if !self.recovery.should_attempt(now) {
            return Recovery::Ignore;
        }
        self.recovery.record_attempt(now);
        Recovery::Rebuild(self.start_rebuild(reason, position))
    }

    /// Decides about a retry that the user asked for. It is not subject to the
    /// cooldown nor to giving up.
    pub fn restart_player(&self, position: Duration) -> (r: Option<RebuildContext>)
        ensures
            context_view(r) == self@.manual_retry(position),
    {
        if self.rebuild_in_flight {
            None
        } else {
            Some(self.start_rebuild("manual retry", position))
        }
    }

    /// Captures everything needed to queue the current track again once the
    /// rebuilt stream lands.
    pub fn start_rebuild(&self, reason: &str, position: Duration) -> (c: RebuildContext)
        ensures
            c@ == self@.rebuild_context(reason@, position),
    {
        RebuildContext {
            position,
            video: self.current_cloned(),
            downloaded: self.is_current_downloaded(),
            reason: reason.to_owned(),
        }
    }

    /// Notes that the worker of a rebuild runs.
    pub fn rebuild_spawned(&mut self, context: RebuildContext, now: Instant)
        ensures
            final(self)@ == old(self)@.rebuilding(context@, now),
    {
        self.rebuild_in_flight = true;
        self.rebuild_started_at = Some(now);
        self.pending_requeue = Some(context);
    }

    /// Notes that the worker of a rebuild could not be started.
    pub fn rebuild_not_spawned(&mut self) -> (r: Vec<PlayerCommand>)
        ensures
            final(self)@ == (PlayerView { recovery: old(self)@.recovery.failed(), ..old(self)@ }),
            command_views(r@) == seq![recovery_failed(PlayErrorView::no_device())],
    {
        self.recovery.record_failure();
        only(
            PlayerCommand::ReportError {
                context: ErrorContext::DeviceRecovery,
                error: PlayError::no_device(),
            },
        )
    }

    /// Applies what became of the rebuild in flight, if there is one. A result
    /// counts even when it is overdue; a rebuild that is overdue without a
    /// result counts as a failure.
    pub fn apply_rebuild_result(&mut self, poll: RebuildPoll, now: Instant) -> (r: Vec<
        PlayerCommand,
    >)
        ensures
            final(self)@ == old(self)@.after_rebuild_poll(poll@, now),
            command_views(r@) == old(self)@.rebuild_poll_commands(poll@, now),
    {
        if !self.rebuild_in_flight {
            return nothing();
        }
        match poll {
            RebuildPoll::Landed => {
                let ghost before = self@;
                self.rebuild_in_flight = false;
                self.rebuild_started_at = None;
                let context = self.pending_requeue.take();
                self.recovery.record_success();
                let mut r = only(PlayerCommand::UseRebuiltPlayer);
                match context {
                    Some(context) => {
                        self.requeue_after_rebuild(&context, &mut r);
                        assert(self@.requeue_commands(context@) == before.requeue_commands(
                            context@,
                        ));
                    },
                    None => {
                        add_command(&mut r, PlayerCommand::Pause);
                    },
                }
                assert(command_views(r@) =~= before.rebuild_poll_commands(poll@, now));
                r
            },
            RebuildPoll::Failed(error) => {
                self.rebuild_in_flight = false;
                self.rebuild_started_at = None;
                self.pending_requeue = None;
                self.recovery.record_failure();
                only(PlayerCommand::ReportError { context: ErrorContext::DeviceRecovery, error })
            },
            RebuildPoll::Pending => {
                let overdue = match self.rebuild_started_at {
                    Some(started) => now.saturating_duration_since(started).nanos
                        >= REBUILD_TIMEOUT,
                    None => false,
                };
                if !overdue {
                    return nothing();
                }
                self.rebuild_in_flight = false;
                self.rebuild_started_at = None;
                self.pending_requeue = None;
                self.recovery.record_failure();
                only(
                    PlayerCommand::ReportError {
                        context: ErrorContext::DeviceRecovery,
                        error: PlayError::no_device(),
                    },
                )
            },
        }
    }

    /// Queues the track of a rebuild again, at its previous position, and
    /// pauses. The track is skipped when the user navigated away while the
    /// rebuild was in flight.
    pub fn requeue_after_rebuild(&self, context: &RebuildContext, r: &mut Vec<PlayerCommand>)
        ensures
            command_views(final(r)@) == command_views(old(r)@) + self@.requeue_commands(context@),
    {
        let ghost before = command_views(r@);
        if context.downloaded {
            if let Some(video) = &context.video {
                if let Some(current) = self.current() {
                    if current.video_id == video.video_id {
                        add_command(
                            r,
                            PlayerCommand::ResumeAt {
                                path: mp4_path(video.video_id.as_str()),
                                position: context.position,
                            },
                        );
                    }
                }
            }
        }
        add_command(r, PlayerCommand::Pause);
        assert(command_views(r@) =~= before + self@.requeue_commands(context@));
    }
}

/// The name of the worker of a rebuild.
pub fn rebuild_thread_name(reason: &str) -> (s: String)
    ensures
        s@ == "yt-audio-rebuild-"@ + reason@,
{
    let mut s = "yt-audio-rebuild-".to_owned();
    s.append(reason);
    s
}

/// A device problem, whatever is said of it, is answered by giving up after three
/// failures in a row, is ignored while a rebuild is in flight or within two seconds
/// of the last attempt, and leads to a rebuild otherwise. Only a rebuild is noted as
/// an attempt, and nothing else of the player changes.
pub proof fn law_answer_to_a_device_problem(
    p: PlayerView,
    reason: Seq<char>,
    now: Instant,
    position: Duration,
)
    ensures
        ({
            let answer = p.recovery_for(reason, now, position);
            let after = p.after_recovery_request(now);
            let recent = p.recovery.last_attempt matches Some(last) && now.nanos < last.nanos
                + 2_000_000_000;
            &&& answer is GiveUp <==> p.recovery.consecutive_failures >= 3
            &&& answer is Ignore <==> p.recovery.consecutive_failures < 3 && (p.rebuild_in_flight
                || recent)
            &&& answer matches RecoveryView::Rebuild(context) ==> {
                &&& context.position == position
                &&& context.reason == reason
                &&& context == p.rebuild_context(reason, position)
                &&& after.recovery.last_attempt == Some(now)
                &&& after.recovery.consecutive_failures == p.recovery.consecutive_failures
                &&& after == (PlayerView { recovery: after.recovery, ..p })
            }
            &&& !(answer is Rebuild) ==> after == p
        }),
{
}

/// What is remembered for a rebuild is where the player is, in which track, and
/// whether that one is downloaded.
pub proof fn law_remembered_for_a_rebuild(p: PlayerView, reason: Seq<char>, position: Duration)
    ensures
        ({
            let c = p.rebuild_context(reason, position);
            &&& c.position == position
            &&& c.reason == reason
            &&& c.video is Some <==> p.current < p.list.len()
            &&& p.current < p.list.len() ==> c.video == Some(p.list[p.current as int])
            &&& c.downloaded <==> {
                &&& p.current < p.list.len()
                &&& p.music_status.contains_key(p.list[p.current as int].video_id)
                &&& p.music_status[p.list[p.current as int].video_id]
                    == crate::music_download_status::MusicDownloadStatus::Downloaded
            }
        }),
{
}

/// However a rebuild came about, its track is queued again exactly when it was
/// downloaded and has the id of the current one, at the remembered position; the
/// player is paused in any case.
pub proof fn law_queued_after_a_rebuild(p: PlayerView, context: RebuildContextView)
    ensures
        ({
            let c = p.requeue_commands(context);
            let queued = context.downloaded && context.video is Some && p.current < p.list.len()
                && p.list[p.current as int].video_id == context.video->0.video_id;
            &&& queued ==> c == seq![
                CommandView::ResumeAt {
                    path: "downloads/"@ + p.list[p.current as int].video_id + ".mp4"@,
                    position: context.position,
                },
                CommandView::Pause,
            ]
            &&& !queued ==> c == seq![CommandView::Pause]
        }),
{
}

} // verus!
