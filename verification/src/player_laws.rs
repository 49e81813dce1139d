//! What holds of the player whatever happens to it.

use vstd::prelude::*;

use crate::clock::{Duration, Instant};
use crate::music_download_status::MusicDownloadStatus;
use crate::play_error::PlayErrorView;
use crate::player_command::{recovery_failed, CommandView, ErrorContext};
use crate::player_state::{PlayerView, RebuildContextView, DOWNLOAD_LIST_LIMIT};
use crate::rebuild::{RebuildPollView, REBUILD_TIMEOUT};
use crate::recovery::{RecoveryPolicy, MAX_CONSECUTIVE_FAILURES, RECOVERY_COOLDOWN};
use crate::status_table::lookup;
use crate::update::{Pass, UpdateStepView, WantedView};
use crate::video::{mp4_path_of, VideoView};

verus! {

/// The fields that describe a rebuild in flight always agree: a new player has
/// them so, and every step of a tick keeps them so, whether a rebuild starts,
/// lands, fails or is overdue.
pub proof fn law_rebuild_stays_consistent(
    p: PlayerView,
    step: UpdateStepView,
    context: RebuildContextView,
    now: Instant,
)
    requires
        p.rebuild_consistent(),
    ensures
        PlayerView::empty().rebuild_consistent(),
        p.updated(step).player.rebuild_consistent(),
        p.rebuilding(context, now).rebuild_consistent(),
{
}

/// How far a tick has come with a step.
pub open spec fn stage_of(step: UpdateStepView) -> int {
    match step {
        UpdateStepView::Start => 0,
        UpdateStepView::RebuildPolled { .. } => 1,
        UpdateStepView::StreamError { pass, .. } => stage_of_errors(pass),
        UpdateStepView::RebuildSpawned { pass, .. } => stage_of_errors(pass),
        UpdateStepView::SoundActionsApplied => 3,
        UpdateStepView::MovedOn => 4,
        UpdateStepView::SinkPolled { .. } => 5,
        UpdateStepView::Played { .. } => 7,
    }
}

/// How far a tick has come when the stream errors are handled.
pub open spec fn stage_of_errors(pass: Pass) -> int {
    match pass {
        Pass::First => 2,
        Pass::Second => 6,
    }
}

/// How far a tick has come with the step that answers what is wanted.
pub open spec fn stage_wanted(wanted: WantedView) -> int {
    match wanted {
        WantedView::RebuildResult => 1,
        WantedView::StreamError(pass) => stage_of_errors(pass),
        WantedView::SpawnRebuild { pass, .. } => stage_of_errors(pass),
        WantedView::SoundActions => 3,
        WantedView::MoveOn => 4,
        WantedView::SinkState => 5,
        WantedView::Play(_) => 7,
        WantedView::Nothing => 8,
    }
}

/// A tick comes to its end: every step leads to a later stage, except that one
/// stage takes all stream errors that have arrived.
pub proof fn law_tick_moves_forward(p: PlayerView, step: UpdateStepView)
    ensures
        ({
            let wanted = p.updated(step).wanted;
            if (step matches UpdateStepView::StreamError { error, .. } && error is Some)
                || step is RebuildSpawned {
                stage_wanted(wanted) == stage_of(step)
            } else {
                stage_wanted(wanted) > stage_of(step)
            }
        }),
{
}

/// There is one rebuild at a time: while one is in flight, neither a stream
/// error nor the user starts another.
pub proof fn law_one_rebuild_at_a_time(
    p: PlayerView,
    reason: Seq<char>,
    now: Instant,
    position: Duration,
    step: UpdateStepView,
)
    requires
        p.rebuild_in_flight,
    ensures
        !(p.recovery_for(reason, now, position) is Rebuild),
        p.manual_retry(position) is None,
        !(p.updated(step).wanted is SpawnRebuild),
{
}

/// A rebuild that has landed is applied before anything else in a tick, so that
/// the rest of the tick sees the new stream.
pub proof fn law_rebuild_comes_first(p: PlayerView)
    requires
        p.rebuild_in_flight,
    ensures
        p.updated(UpdateStepView::Start).commands == Seq::<CommandView>::empty(),
        p.updated(UpdateStepView::Start).wanted is RebuildResult,
        p.updated(UpdateStepView::Start).player == p,
{
}

/// A rebuild that has landed ends with a pause: the new player is put in place
/// first, at most one track is queued, and pausing is the last thing done to it.
pub proof fn law_recovery_pauses(p: PlayerView, now: Instant)
    requires
        p.rebuild_in_flight,
    ensures
        ({
            let c = p.rebuild_poll_commands(RebuildPollView::Landed, now);
            &&& 2 <= c.len() <= 3
            &&& c.first() == CommandView::UseRebuiltPlayer
            &&& c.last() == CommandView::Pause
            &&& forall|i: int| 1 <= i < c.len() - 1 ==> c[i] is ResumeAt
        }),
{
}

/// A track is given to the sink only when the sink has played to its end, after
/// the stream errors that follow: while something is queued, even paused, a tick
/// starts nothing. Without a playlist it never does.
pub proof fn law_only_a_finished_sink_gets_a_track(p: PlayerView, step: UpdateStepView)
    ensures
        p.updated(step).wanted is Play ==> (step matches UpdateStepView::StreamError {
            pass,
            error,
            ..
        } && pass is Second && error is None),
        p.updated(step).wanted == WantedView::StreamError(Pass::Second) ==> step
            == (UpdateStepView::SinkPolled { finished: true }) || stage_of(step) == stage_of_errors(
            Pass::Second,
        ),
        step == (UpdateStepView::SinkPolled { finished: false }) ==> p.updated(step).wanted
            is Nothing,
        p.list.len() == 0 ==> !(p.updated(step).wanted is Play),
{
}

/// Whether the player is paused after a command, given whether it was before. A
/// new player and a queued track play.
pub open spec fn paused_by(command: CommandView, paused: bool) -> bool {
    match command {
        CommandView::UseRebuiltPlayer => false,
        CommandView::ResumeAt { .. } => false,
        CommandView::Pause => true,
        _ => paused,
    }
}

/// Whether the player is paused after some commands.
pub open spec fn paused_after(commands: Seq<CommandView>, paused: bool) -> bool
    decreases commands.len(),
{
    if commands.len() == 0 {
        paused
    } else {
        paused_by(commands.last(), paused_after(commands.drop_last(), paused))
    }
}

/// The commands of some steps.
pub open spec fn commands_of(h: Seq<Moment>) -> Seq<CommandView>
    decreases h.len(),
{
    if h.len() == 0 {
        seq![]
    } else {
        commands_of(h.drop_last()) + h.last().player.updated(h.last().step).commands
    }
}

/// A recovered player does not resume by itself: from the landing of a rebuild on,
/// through any number of steps and ticks and whatever the surroundings do between
/// them, the commands leave it paused, as long as no track is given to it.
pub proof fn law_recovered_player_stays_paused(h: Seq<Moment>, paused: bool)
    requires
        h.len() > 0,
        h[0].player.rebuild_in_flight,
        h[0].step matches UpdateStepView::RebuildPolled { poll, .. } && poll is Landed,
        forall|i: int|
            0 <= i < h.len() ==> !((#[trigger] h[i]).player.updated(h[i].step).wanted is Play),
    ensures
        paused_after(commands_of(h), paused),
    decreases h.len(),
{
    let m = h.last();
    let before = commands_of(h.drop_last());
    let c = m.player.updated(m.step).commands;
    lemma_paused_concat(before, c, paused);
    if h.len() == 1 {
        assert(before =~= Seq::<CommandView>::empty());
        lemma_step_keeps_pause(m.player, m.step, paused);
    } else {
        assert forall|i: int| 0 <= i < h.drop_last().len() implies !((
        #[trigger] h.drop_last()[i]).player.updated(h.drop_last()[i].step).wanted is Play) by {
            assert(h.drop_last()[i] == h[i]);
        }
        law_recovered_player_stays_paused(h.drop_last(), paused);
        lemma_step_keeps_pause(m.player, m.step, true);
    }
}

proof fn lemma_paused_concat(a: Seq<CommandView>, b: Seq<CommandView>, paused: bool)
    ensures
        paused_after(a + b, paused) == paused_after(b, paused_after(a, paused)),
    decreases b.len(),
{
    if b.len() == 0 {
        assert(a + b =~= a);
    } else {
        assert((a + b).drop_last() =~= a + b.drop_last());
        lemma_paused_concat(a, b.drop_last(), paused);
    }
}

/// Commands that put nothing in place and queue nothing keep a pause.
proof fn lemma_silent(c: Seq<CommandView>)
    requires
        forall|i: int|
            0 <= i < c.len() ==> !((#[trigger] c[i]) is UseRebuiltPlayer) && !(c[i] is ResumeAt),
    ensures
        paused_after(c, true),
    decreases c.len(),
{
    if c.len() > 0 {
        assert forall|i: int| 0 <= i < c.drop_last().len() implies !((
        #[trigger] c.drop_last()[i]) is UseRebuiltPlayer) && !(c.drop_last()[i] is ResumeAt) by {
            assert(c.drop_last()[i] == c[i]);
        }
        lemma_silent(c.drop_last());
    }
}

/// A step keeps a pause, and the landing of a rebuild brings one.
proof fn lemma_step_keeps_pause(p: PlayerView, step: UpdateStepView, paused: bool)
    requires
        paused || p.rebuild_in_flight && (step matches UpdateStepView::RebuildPolled { poll, .. }
            && poll is Landed),
    ensures
        paused_after(p.updated(step).commands, paused),
{
    let c = p.updated(step).commands;
    if let UpdateStepView::RebuildPolled { poll, now } = step {
        let first = p.rebuild_poll_commands(poll, now);
        let q = p.after_rebuild_poll(poll, now);
        let rest = seq![
            CommandView::SetRunning(q.current_video() is Some),
            CommandView::UpdateControls(q.current_video()),
        ];
        assert(c == first + rest);
        if p.rebuild_in_flight && poll is Landed {
            law_recovery_pauses(p, now);
            assert(paused_after(first, paused));
        } else {
            lemma_silent(first);
        }
        lemma_paused_concat(first, rest, paused);
        lemma_silent(rest);
    } else {
        lemma_silent(c);
    }
}

/// Where the user has gone to another track during the rebuild, or the track
/// was not downloaded, nothing is queued: the old track is not resurrected.
pub proof fn law_other_track_not_queued(
    p: PlayerView,
    context: RebuildContextView,
    now: Instant,
)
    requires
        p.rebuild_in_flight,
        p.pending_requeue == Some(context),
        !context.downloaded || context.video is None || p.current_video() is None
            || context.video->0.video_id != p.current_video()->0.video_id,
    ensures
        p.rebuild_poll_commands(RebuildPollView::Landed, now) == seq![
            CommandView::UseRebuiltPlayer,
            CommandView::Pause,
        ],
{
    assert(p.rebuild_poll_commands(RebuildPollView::Landed, now) =~= seq![
        CommandView::UseRebuiltPlayer,
        CommandView::Pause,
    ]);
}

/// A rebuild puts the player back where it was: the track that was playing when
/// the rebuild began is queued again at the position it had then.
pub proof fn law_rebuild_returns_to_position(
    p: PlayerView,
    reason: Seq<char>,
    position: Duration,
    started: Instant,
    now: Instant,
)
    requires
        p.current_downloaded(),
    ensures
        p.rebuilding(p.rebuild_context(reason, position), started).rebuild_poll_commands(
            RebuildPollView::Landed,
            now,
        ) == seq![
            CommandView::UseRebuiltPlayer,
            CommandView::ResumeAt { path: mp4_path_of(p.current_video()->0.video_id), position },
            CommandView::Pause,
        ],
{
    let q = p.rebuilding(p.rebuild_context(reason, position), started);
    assert(q.rebuild_poll_commands(RebuildPollView::Landed, now) =~= seq![
        CommandView::UseRebuiltPlayer,
        CommandView::ResumeAt { path: mp4_path_of(p.current_video()->0.video_id), position },
        CommandView::Pause,
    ]);
}

/// A result counts even when the rebuild is overdue: a slow rebuild that
/// succeeds is not discarded.
pub proof fn law_late_result_counts(p: PlayerView, early: Instant, late: Instant)
    ensures
        p.after_rebuild_poll(RebuildPollView::Landed, early) == p.after_rebuild_poll(
            RebuildPollView::Landed,
            late,
        ),
        p.rebuild_poll_commands(RebuildPollView::Landed, early) == p.rebuild_poll_commands(
            RebuildPollView::Landed,
            late,
        ),
{
}

/// A rebuild does not stay in flight for ever: a result ends it, and once the
/// timeout has passed, so does the look at it with which every tick begins. An
/// end without a result counts as a failure.
pub proof fn law_rebuild_times_out(
    p: PlayerView,
    started: Instant,
    poll: RebuildPollView,
    now: Instant,
)
    requires
        p.rebuild_in_flight,
        p.rebuild_started_at == Some(started),
        !(poll is Pending) || now.nanos >= started.nanos + REBUILD_TIMEOUT,
    ensures
        p.updated(UpdateStepView::Start).wanted is RebuildResult,
        !p.updated(UpdateStepView::RebuildPolled { poll, now }).player.rebuild_in_flight,
        poll is Pending ==> {
            &&& p.after_rebuild_poll(poll, now).recovery == p.recovery.failed()
            &&& p.rebuild_poll_commands(poll, now) == seq![
                recovery_failed(PlayErrorView::no_device()),
            ]
        },
{
}

/// An error that is not a loss of the device is reported and leaves the player
/// alone: the output stream is not torn down for it.
pub proof fn law_other_errors_are_only_reported(
    p: PlayerView,
    pass: Pass,
    error: PlayErrorView,
    now: Instant,
    position: Duration,
)
    requires
        !error.is_device_loss(),
    ensures
        ({
            let next = p.updated(
                UpdateStepView::StreamError { pass, error: Some(error), now, position },
            );
            &&& next.player == p
            &&& next.commands == seq![
                CommandView::ReportError { context: ErrorContext::DeviceStream, error },
            ]
            &&& next.wanted == WantedView::StreamError(pass)
        }),
{
}

/// After too many failures in a row, a lost device is reported each time and no
/// rebuild is started for it.
pub proof fn law_exhausted_recovery_reports(
    p: PlayerView,
    pass: Pass,
    error: PlayErrorView,
    now: Instant,
    position: Duration,
)
    requires
        error.is_device_loss(),
        p.recovery.consecutive_failures >= MAX_CONSECUTIVE_FAILURES,
    ensures
        ({
            let next = p.updated(
                UpdateStepView::StreamError { pass, error: Some(error), now, position },
            );
            &&& next.player == p
            &&& next.commands == seq![recovery_failed(PlayErrorView::no_device())]
            &&& next.wanted == WantedView::StreamError(pass)
        }),
{
}

/// A step of a tick: the player before it, and what was found out.
pub ghost struct Moment {
    pub player: PlayerView,
    pub step: UpdateStepView,
}

/// Whether a step starts a rebuild by itself.
pub open spec fn starts_rebuild(m: Moment) -> bool {
    m.player.updated(m.step).wanted is SpawnRebuild
}

/// The time of a stream error.
pub open spec fn time_of(m: Moment) -> Instant
    recommends
        m.step is StreamError,
{
    m.step->StreamError_now
}

/// A history of steps. Between two steps the surroundings may change the
/// player as they like, except for the time of the last attempt at recovery.
pub open spec fn is_history(h: Seq<Moment>) -> bool {
    forall|i: int|
        0 <= i < h.len() - 1 ==> #[trigger] h[i].player.updated(
            h[i].step,
        ).player.recovery.last_attempt == h[i + 1].player.recovery.last_attempt
}

/// A noisy device cannot spin the player: any two rebuilds that it starts by
/// itself are at least the cooldown apart, whatever happens between them.
pub proof fn law_rebuilds_keep_their_distance(h: Seq<Moment>, i: int, j: int)
    requires
        is_history(h),
        0 <= i < j < h.len(),
        starts_rebuild(h[i]),
        starts_rebuild(h[j]),
    ensures
        time_of(h[j]).nanos >= time_of(h[i]).nanos + RECOVERY_COOLDOWN,
{
    lemma_last_attempt_not_before(h, i, j);
}

proof fn lemma_last_attempt_not_before(h: Seq<Moment>, i: int, j: int)
    requires
        is_history(h),
        0 <= i < j < h.len(),
        starts_rebuild(h[i]),
    ensures
        h[j].player.recovery.last_attempt matches Some(t) && t.nanos >= time_of(h[i]).nanos,
    decreases j,
{
    let m = h[j - 1];
    assert(h[j - 1].player.updated(h[j - 1].step).player.recovery.last_attempt == h[j
        - 1 + 1].player.recovery.last_attempt);
    if i < j - 1 {
        lemma_last_attempt_not_before(h, i, j - 1);
    }
}

/// Tracks that failed to download are skipped: the position moves forward to
/// the first track that did not fail, past failed ones only.
pub proof fn law_failed_tracks_are_skipped(p: PlayerView)
    requires
        p.list.len() <= usize::MAX,
    ensures
        ({
            let q = p.past_failed();
            &&& q.current >= p.current
            &&& !q.current_failed()
            &&& forall|i: int|
                p.current <= i < q.current ==> #[trigger] p.has_status(
                    i,
                    MusicDownloadStatus::DownloadFailed,
                )
        }),
{
    lemma_first_not_failed(p, p.current as int);
}

proof fn lemma_first_not_failed(p: PlayerView, i: int)
    requires
        i >= 0,
    ensures
        ({
            let k = p.first_not_failed(i);
            &&& i <= k
            &&& k <= p.list.len() || k == i
            &&& !p.has_status(k, MusicDownloadStatus::DownloadFailed)
            &&& forall|n: int|
                i <= n < k ==> #[trigger] p.has_status(n, MusicDownloadStatus::DownloadFailed)
        }),
    decreases p.list.len() - i,
{
    if p.has_status(i, MusicDownloadStatus::DownloadFailed) {
        lemma_first_not_failed(p, i + 1);
    }
}

/// Only a downloaded track is played, and it is the current one.
pub proof fn law_only_downloaded_tracks_are_played(p: PlayerView, step: UpdateStepView)
    ensures
        p.updated(step).wanted matches WantedView::Play(v) ==> {
            let q = p.updated(step).player;
            &&& q.current_video() == Some(v)
            &&& lookup(q.music_status, v.video_id) == Some(MusicDownloadStatus::Downloaded)
        },
{
}

/// The downloader gets at most twelve tracks, all of the playlist and none of
/// them downloaded; where it gets fewer, it gets all that there are.
pub proof fn law_download_list(p: PlayerView)
    ensures
        p.download_list().len() <= DOWNLOAD_LIST_LIMIT,
        forall|v: VideoView| #[trigger]
            p.download_list().contains(v) ==> p.list.contains(v) && lookup(
                p.music_status,
                v.video_id,
            ) == Some(MusicDownloadStatus::NotDownloaded),
        p.download_list().len() < DOWNLOAD_LIST_LIMIT ==> forall|i: int|
            0 <= i < p.list.len() && p.has_status(
                i,
                MusicDownloadStatus::NotDownloaded,
            ) ==> p.download_list().contains(#[trigger] p.list[i]),
{
    let waits = |v: VideoView|
        lookup(p.music_status, v.video_id) == Some(MusicDownloadStatus::NotDownloaded);
    let order = p.download_order();
    let waiting = order.filter(waits);
    let c = if p.current <= p.list.len() {
        p.current as int
    } else {
        p.list.len() as int
    };
    assert forall|v: VideoView| #[trigger] p.download_list().contains(v) implies p.list.contains(
        v,
    ) && waits(v) by {
        let k = choose|k: int| 0 <= k < p.download_list().len() && p.download_list()[k] == v;
        assert(waiting[k] == v);
        order.lemma_filter_pred(waits, k);
        order.lemma_filter_contains_rev(waits, v);
        let n = choose|n: int| 0 <= n < order.len() && order[n] == v;
        if n < p.list.len() - c {
            assert(p.list[c + n] == v);
        } else {
            assert(p.list[p.list.len() - 1 - n] == v);
        }
    }
    assert forall|i: int|
        0 <= i < p.list.len() && p.has_status(i, MusicDownloadStatus::NotDownloaded)
            && p.download_list().len()
            < DOWNLOAD_LIST_LIMIT implies p.download_list().contains(#[trigger] p.list[i]) by {
        let v = p.list[i];
        if i >= c {
            assert(order[i - c] == v);
        } else {
            assert(order[p.list.len() - 1 - i] == v);
        }
        order.lemma_filter_contains(waits, order.index_of(v));
        assert(waits(v));
    }
}

/// The current track comes first in the download order.
pub proof fn law_current_track_is_downloaded_first(p: PlayerView)
    requires
        p.has_status(p.current as int, MusicDownloadStatus::NotDownloaded),
    ensures
        p.download_list().len() > 0,
        p.download_list()[0] == p.current_video()->0,
{
    let waits = |v: VideoView|
        lookup(p.music_status, v.video_id) == Some(MusicDownloadStatus::NotDownloaded);
    let order = p.download_order();
    let v = p.list[p.current as int];
    assert(order[0] == v);
    assert(order =~= seq![v] + order.skip(1));
    Seq::filter_distributes_over_add(seq![v], order.skip(1), waits);
    assert(seq![v].filter(waits) =~= seq![v]) by {
        reveal(Seq::filter);
        assert(seq![v].drop_last() =~= Seq::<VideoView>::empty());
        assert(seq![v].drop_last().filter(waits) =~= Seq::<VideoView>::empty());
    }
}

/// The downloader is only told about changes: after a tick, another end of a
/// tick without a change has nothing for it.
pub proof fn law_unchanged_list_is_not_sent_again(
    p: PlayerView,
    before: Seq<CommandView>,
    again: Seq<CommandView>,
)
    ensures
        ({
            let q = p.tick_over(before).player;
            &&& q.last_download_list == q.download_ids()
            &&& q.tick_over(again).commands == again
            &&& q.tick_over(again).player == q
        }),
{
    let q = p.tick_over(before).player;
    assert(q.download_order() == p.download_order());
    assert(q.download_list() =~= p.download_list());
}

/// After the first stream errors of a tick, the position does not point behind
/// the end of the playlist, wherever it was before; and no step moves it there.
/// No step changes the playlist either.
pub proof fn law_position_stays_in_the_playlist(
    p: PlayerView,
    step: UpdateStepView,
    now: Instant,
    position: Duration,
)
    requires
        p.list.len() <= usize::MAX,
    ensures
        ({
            let q = p.updated(
                UpdateStepView::StreamError { pass: Pass::First, error: None, now, position },
            ).player;
            q.current <= q.list.len()
        }),
        p.current <= p.list.len() ==> p.updated(step).player.current <= p.list.len(),
        p.updated(step).player.list == p.list,
{
    lemma_first_not_failed(p, p.current as int);
}

/// The user may retry at any time: only a rebuild in flight stands in the way.
/// The history of recovery, its cooldown and that it was given up, do not.
pub proof fn law_manual_retry_is_not_gated(
    p: PlayerView,
    recovery: RecoveryPolicy,
    position: Duration,
)
    ensures
        p.manual_retry(position) is Some <==> !p.rebuild_in_flight,
        (PlayerView { recovery, ..p }).manual_retry(position) == p.manual_retry(position),
{
    let q = PlayerView { recovery, ..p };
    assert(q.current_video() == p.current_video());
    assert(q.current_downloaded() == p.current_downloaded());
}

} // verus!
