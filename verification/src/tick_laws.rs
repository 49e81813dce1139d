//! What the steps of a tick do, said of the playlist, the statuses and the
//! position themselves.

use vstd::prelude::*;

use crate::clock::{Duration, Instant};
use crate::music_download_status::MusicDownloadStatus;
use crate::play_error::{PlayErrorKind, PlayErrorView};
use crate::player_command::{CommandView, ErrorContext};
use crate::player_state::{moved, PlayerView, RebuildContextView};
use crate::rebuild::RebuildPollView;
use crate::update::{Pass, UpdateStepView, WantedView};
use crate::video::VideoView;

verus! {

/// The track at a place in the playlist has a status.
pub open spec fn stands_at(p: PlayerView, i: int, status: MusicDownloadStatus) -> bool {
    &&& 0 <= i < p.list.len()
    &&& p.music_status.contains_key(p.list[i].video_id)
    &&& p.music_status[p.list[i].video_id] == status
}

/// The track at the position, if there is one.
pub open spec fn track_at_position(p: PlayerView) -> Option<VideoView> {
    if p.current < p.list.len() {
        Some(p.list[p.current as int])
    } else {
        None
    }
}

/// Two players are the same but for what was last handed to the downloader.
pub open spec fn same_but_for_download_list(p: PlayerView, q: PlayerView) -> bool {
    q == (PlayerView { last_download_list: q.last_download_list, ..p })
}

/// The step that finds no further stream error.
pub open spec fn no_more_errors(pass: Pass, now: Instant, position: Duration) -> UpdateStepView {
    UpdateStepView::StreamError { pass, error: None, now, position }
}

/// The position moves by exactly as many places as asked for, and stops at the
/// ends of its range. Nothing else of the player changes.
pub proof fn law_position_moves_by(p: PlayerView, n: isize)
    ensures
        ({
            let q = p.moved_by(n);
            &&& q == (PlayerView { current: q.current, ..p })
            &&& 0 <= p.current + n <= usize::MAX ==> q.current == p.current + n
            &&& p.current + n < 0 ==> q.current == 0
            &&& p.current + n > usize::MAX ==> q.current == usize::MAX
            &&& q.current == moved(p.current, n)
        }),
{
}

/// What is said of the current track is said of the track at the position.
pub proof fn law_current_track(p: PlayerView, i: int, status: MusicDownloadStatus)
    ensures
        p.current_video() == track_at_position(p),
        p.current_failed() <==> stands_at(p, p.current as int, MusicDownloadStatus::DownloadFailed),
        p.current_downloaded() <==> stands_at(
            p,
            p.current as int,
            MusicDownloadStatus::Downloaded,
        ),
        p.has_status(i, status) <==> stands_at(p, i, status),
        p.at(i) == if 0 <= i < p.list.len() {
            Some(p.list[i])
        } else {
            None
        },
{
}

/// When the sink is finished, and it played the current track, which is
/// downloaded, the position is one further; in any other case it stays. Nothing
/// else of the player changes, and nothing is ordered.
pub proof fn law_finished_track_is_left_by_one(p: PlayerView)
    requires
        p.list.len() <= usize::MAX,
    ensures
        ({
            let next = p.updated(UpdateStepView::SinkPolled { finished: true });
            let played = stands_at(p, p.current as int, MusicDownloadStatus::Downloaded)
                && p.rtcurrent == Some(p.list[p.current as int]);
            &&& next.commands.len() == 0
            &&& next.player == (PlayerView { current: next.player.current, ..p })
            &&& played ==> next.player.current == p.current + 1
            &&& !played ==> next.player.current == p.current
        }),
{
}

/// Before a track is played, the position goes forward past failed tracks only,
/// to one that did not fail. That one is played exactly when it is downloaded, and
/// otherwise the tick is over. The track shown is the one before the failed ones
/// are passed.
pub proof fn law_next_track_to_play(p: PlayerView, now: Instant, position: Duration)
    requires
        p.list.len() <= usize::MAX,
    ensures
        ({
            let next = p.updated(no_more_errors(Pass::Second, now, position));
            let k = next.player.current as int;
            &&& p.current <= k
            &&& forall|i: int|
                p.current <= i < k ==> #[trigger] stands_at(
                    p,
                    i,
                    MusicDownloadStatus::DownloadFailed,
                )
            &&& !stands_at(p, k, MusicDownloadStatus::DownloadFailed)
            &&& next.wanted is Play <==> stands_at(p, k, MusicDownloadStatus::Downloaded)
            &&& next.wanted is Play ==> next.wanted == WantedView::Play(p.list[k])
            &&& !(next.wanted is Play) ==> next.wanted is Nothing
            &&& same_but_for_download_list(
                PlayerView { current: next.player.current, ..p },
                next.player,
            )
            &&& next.commands.len() > 0
            &&& next.commands[0] == CommandView::UpdateControls(track_at_position(p))
        }),
{
    lemma_first_after(p, p.current as int);
}

proof fn lemma_first_after(p: PlayerView, i: int)
    requires
        i >= 0,
    ensures
        ({
            let k = p.first_not_failed(i);
            &&& i <= k
            &&& k <= p.list.len() || k == i
            &&& !stands_at(p, k, MusicDownloadStatus::DownloadFailed)
            &&& forall|n: int|
                i <= n < k ==> #[trigger] stands_at(p, n, MusicDownloadStatus::DownloadFailed)
        }),
    decreases p.list.len() - i,
{
    if p.has_status(i, MusicDownloadStatus::DownloadFailed) {
        lemma_first_after(p, i + 1);
    }
}

/// The playlist is played in its order: when a track has played to its end, the
/// track that is played next is the first one behind it that did not fail. So no
/// track that did not fail is passed over, and where the very next one is
/// downloaded, it is played.
pub proof fn law_playlist_is_played_in_order(p: PlayerView, now: Instant, position: Duration)
    requires
        p.list.len() <= usize::MAX,
        stands_at(p, p.current as int, MusicDownloadStatus::Downloaded),
        p.rtcurrent == Some(p.list[p.current as int]),
    ensures
        ({
            let left = p.updated(UpdateStepView::SinkPolled { finished: true }).player;
            let next = left.updated(no_more_errors(Pass::Second, now, position));
            let k = next.player.current as int;
            &&& k > p.current
            &&& forall|i: int|
                p.current < i < k ==> #[trigger] stands_at(
                    p,
                    i,
                    MusicDownloadStatus::DownloadFailed,
                )
            &&& !stands_at(p, k, MusicDownloadStatus::DownloadFailed)
            &&& next.wanted is Play ==> next.wanted == WantedView::Play(p.list[k])
            &&& stands_at(p, k, MusicDownloadStatus::Downloaded) ==> next.wanted is Play
            &&& stands_at(p, p.current + 1, MusicDownloadStatus::Downloaded) ==> next.wanted
                == WantedView::Play(p.list[p.current + 1])
        }),
{
    let left = p.updated(UpdateStepView::SinkPolled { finished: true }).player;
    law_finished_track_is_left_by_one(p);
    law_next_track_to_play(left, now, position);
    let k = left.updated(no_more_errors(Pass::Second, now, position)).player.current as int;
    assert forall|i: int| p.current < i < k implies #[trigger] stands_at(
        p,
        i,
        MusicDownloadStatus::DownloadFailed,
    ) by {
        assert(stands_at(left, i, MusicDownloadStatus::DownloadFailed));
    }
    assert(!stands_at(left, k, MusicDownloadStatus::DownloadFailed));
    if stands_at(p, p.current + 1, MusicDownloadStatus::Downloaded) && k > p.current + 1 {
        assert(stands_at(p, p.current + 1, MusicDownloadStatus::DownloadFailed));
    }
}

/// While the sink plays, the track that it plays is noted, and the tick is over.
pub proof fn law_playing_track_is_noted(p: PlayerView)
    ensures
        ({
            let next = p.updated(UpdateStepView::SinkPolled { finished: false });
            &&& next.wanted is Nothing
            &&& next.player.rtcurrent == track_at_position(p)
            &&& same_but_for_download_list(
                PlayerView { rtcurrent: track_at_position(p), ..p },
                next.player,
            )
        }),
{
}

/// A lost device: what a stream error says that asks for a rebuild.
pub open spec fn says_lost(error: PlayErrorView) -> bool {
    error.kind == PlayErrorKind::DeviceStreamError || error.kind == PlayErrorKind::StreamError
}

/// A rebuild may be started by itself: fewer than three failures in a row, none in
/// flight, and the last attempt, if any, at least two seconds ago.
pub open spec fn may_rebuild(p: PlayerView, now: Instant) -> bool {
    &&& p.recovery.consecutive_failures < 3
    &&& !p.rebuild_in_flight
    &&& p.recovery.last_attempt matches Some(last) ==> now.nanos >= last.nanos + 2_000_000_000
}

/// What a rebuild is to come back to: the track at the position, whether it is
/// downloaded, and where the player was in it.
pub open spec fn comes_back_to(
    context: RebuildContextView,
    p: PlayerView,
    position: Duration,
) -> bool {
    &&& context.position == position
    &&& context.video == track_at_position(p)
    &&& context.downloaded <==> stands_at(p, p.current as int, MusicDownloadStatus::Downloaded)
}

/// A stream error starts a rebuild exactly when the device is lost and a rebuild
/// may be started. The rebuild comes back to the track at the position, where the
/// player was at the time of the error; the attempt is noted, and nothing else
/// changes. Otherwise the player stays as it is: an error that is no loss of the
/// device is reported as it is, a loss after three failures as a lack of a device,
/// and any other loss is ignored.
pub proof fn law_stream_error(
    p: PlayerView,
    pass: Pass,
    error: PlayErrorView,
    now: Instant,
    position: Duration,
)
    ensures
        ({
            let next = p.updated(
                UpdateStepView::StreamError { pass, error: Some(error), now, position },
            );
            &&& next.wanted is SpawnRebuild <==> says_lost(error) && may_rebuild(p, now)
            &&& next.wanted matches WantedView::SpawnRebuild { pass: again, context } ==> {
                &&& again == pass
                &&& comes_back_to(context, p, position)
                &&& context.reason == "device stream error"@
                &&& next.commands.len() == 0
                &&& next.player.recovery.last_attempt == Some(now)
                &&& next.player.recovery.consecutive_failures == p.recovery.consecutive_failures
                &&& next.player == (PlayerView { recovery: next.player.recovery, ..p })
            }
            &&& !(next.wanted is SpawnRebuild) ==> {
                &&& next.wanted == WantedView::StreamError(pass)
                &&& next.player == p
                &&& !says_lost(error) ==> next.commands == seq![
                    CommandView::ReportError { context: ErrorContext::DeviceStream, error },
                ]
                &&& says_lost(error) && p.recovery.consecutive_failures >= 3 ==> next.commands
                    == seq![
                    CommandView::ReportError {
                        context: ErrorContext::DeviceRecovery,
                        error: PlayErrorView {
                            kind: PlayErrorKind::StreamError,
                            detail: "NoDevice"@,
                        },
                    },
                ]
                &&& says_lost(error) && p.recovery.consecutive_failures < 3
                    ==> next.commands.len() == 0
            }
        }),
{
}

/// The retry that the user asks for comes back to the same place, and only a
/// rebuild in flight refuses it.
pub proof fn law_manual_retry(p: PlayerView, position: Duration)
    ensures
        p.rebuild_in_flight <==> p.manual_retry(position) is None,
        p.manual_retry(position) matches Some(context) ==> comes_back_to(context, p, position)
            && context.reason == "manual retry"@,
{
}

/// A rebuild whose worker runs is in flight from then on, with its context. One
/// whose worker could not be started counts as a failure and is reported. The
/// stream errors go on where they were.
pub proof fn law_rebuild_spawned(
    p: PlayerView,
    pass: Pass,
    context: RebuildContextView,
    spawned: bool,
    now: Instant,
)
    ensures
        ({
            let next = p.updated(UpdateStepView::RebuildSpawned { pass, context, spawned, now });
            let q = next.player;
            &&& next.wanted == WantedView::StreamError(pass)
            &&& spawned ==> {
                &&& q.rebuild_in_flight
                &&& q.rebuild_started_at == Some(now)
                &&& q.pending_requeue == Some(context)
                &&& q == (PlayerView {
                    rebuild_in_flight: true,
                    rebuild_started_at: q.rebuild_started_at,
                    pending_requeue: q.pending_requeue,
                    ..p
                })
                &&& next.commands.len() == 0
            }
            &&& !spawned ==> {
                &&& q == (PlayerView { recovery: q.recovery, ..p })
                &&& counts_as_failure(p, q)
                &&& next.commands == seq![no_device_report()]
            }
        }),
{
}

/// One more failure in a row is counted, and the last attempt stays.
pub open spec fn counts_as_failure(p: PlayerView, q: PlayerView) -> bool {
    &&& q.recovery.last_attempt == p.recovery.last_attempt
    &&& p.recovery.consecutive_failures < u32::MAX ==> q.recovery.consecutive_failures
        == p.recovery.consecutive_failures + 1
    &&& p.recovery.consecutive_failures == u32::MAX ==> q.recovery.consecutive_failures
        == u32::MAX
}

/// The report that there is no device to recover.
pub open spec fn no_device_report() -> CommandView {
    CommandView::ReportError {
        context: ErrorContext::DeviceRecovery,
        error: PlayErrorView { kind: PlayErrorKind::StreamError, detail: "NoDevice"@ },
    }
}

/// Nothing is in flight any more, and nothing but the recovery policy differs
/// otherwise.
pub open spec fn rebuild_over(p: PlayerView, q: PlayerView) -> bool {
    q == (PlayerView {
        rebuild_in_flight: false,
        rebuild_started_at: None,
        pending_requeue: None,
        recovery: q.recovery,
        ..p
    })
}

/// A look at a rebuild in flight. A landed one resets the failures; a failed one
/// counts as a failure and is reported with its error; one without a result stays
/// in flight until ten seconds after its start, and then counts as a failure too.
/// In any case the player then publishes whether it has a current track, and which,
/// and turns to the stream errors.
pub proof fn law_rebuild_polled(p: PlayerView, poll: RebuildPollView, now: Instant)
    ensures
        ({
            let next = p.updated(UpdateStepView::RebuildPolled { poll, now });
            let q = next.player;
            let overdue = p.rebuild_started_at matches Some(started) && now.nanos >= started.nanos
                + 10_000_000_000;
            let n = next.commands.len();
            &&& next.wanted == WantedView::StreamError(Pass::First)
            &&& n >= 2
            &&& next.commands[n - 2] == CommandView::SetRunning(p.current < p.list.len())
            &&& next.commands[n - 1] == CommandView::UpdateControls(track_at_position(p))
            &&& !p.rebuild_in_flight ==> q == p && n == 2
            &&& p.rebuild_in_flight && poll is Landed ==> {
                &&& rebuild_over(p, q)
                &&& q.recovery.consecutive_failures == 0
                &&& q.recovery.last_attempt == p.recovery.last_attempt
                &&& next.commands[0] == CommandView::UseRebuiltPlayer
                &&& next.commands[n - 3] == CommandView::Pause
            }
            &&& p.rebuild_in_flight && poll is Failed ==> {
                &&& rebuild_over(p, q)
                &&& counts_as_failure(p, q)
                &&& n == 3
                &&& next.commands[0] == CommandView::ReportError {
                    context: ErrorContext::DeviceRecovery,
                    error: poll->Failed_0,
                }
            }
            &&& p.rebuild_in_flight && poll is Pending && overdue ==> {
                &&& rebuild_over(p, q)
                &&& counts_as_failure(p, q)
                &&& n == 3
                &&& next.commands[0] == no_device_report()
            }
            &&& p.rebuild_in_flight && poll is Pending && !overdue ==> q == p && n == 2
        }),
{
}

/// When a rebuild lands, its track is queued again at its position exactly when it
/// was downloaded and is still the current one, by its id; and then it is the only
/// one.
pub proof fn law_landed_rebuild_queues(p: PlayerView, now: Instant)
    requires
        p.rebuild_in_flight,
    ensures
        ({
            let c = p.updated(
                UpdateStepView::RebuildPolled { poll: RebuildPollView::Landed, now },
            ).commands;
            let queued = p.pending_requeue matches Some(context) && context.downloaded
                && context.video is Some && p.current < p.list.len()
                && p.list[p.current as int].video_id == context.video->0.video_id;
            &&& queued ==> {
                &&& c.len() == 5
                &&& c[1] == CommandView::ResumeAt {
                    path: "downloads/"@ + p.list[p.current as int].video_id + ".mp4"@,
                    position: p.pending_requeue->0.position,
                }
            }
            &&& !queued ==> {
                &&& c.len() == 4
                &&& forall|i: int| 0 <= i < 4 ==> !((#[trigger] c[i]) is ResumeAt)
            }
        }),
{
}

/// A lost device costs nothing but a pause: from the stream error over the start of
/// the rebuild to its landing, whatever happens to the player meanwhile, the track
/// that was current and downloaded at the error is queued where the player was at
/// the error, if it is still the current one.
pub proof fn law_lost_device_comes_back(
    p: PlayerView,
    pass: Pass,
    error: PlayErrorView,
    now: Instant,
    position: Duration,
    spawned: Instant,
    later: PlayerView,
    landed: Instant,
)
    requires
        says_lost(error),
        may_rebuild(p, now),
        stands_at(p, p.current as int, MusicDownloadStatus::Downloaded),
        ({
            let asked = p.updated(
                UpdateStepView::StreamError { pass, error: Some(error), now, position },
            );
            let running = asked.player.updated(
                UpdateStepView::RebuildSpawned {
                    pass,
                    context: asked.wanted->SpawnRebuild_context,
                    spawned: true,
                    now: spawned,
                },
            ).player;
            &&& later.rebuild_in_flight == running.rebuild_in_flight
            &&& later.pending_requeue == running.pending_requeue
        }),
        later.current < later.list.len(),
        later.list[later.current as int].video_id == p.list[p.current as int].video_id,
    ensures
        later.updated(
            UpdateStepView::RebuildPolled { poll: RebuildPollView::Landed, now: landed },
        ).commands == seq![
            CommandView::UseRebuiltPlayer,
            CommandView::ResumeAt {
                path: "downloads/"@ + p.list[p.current as int].video_id + ".mp4"@,
                position,
            },
            CommandView::Pause,
            CommandView::SetRunning(true),
            CommandView::UpdateControls(Some(later.list[later.current as int])),
        ],
{
    law_stream_error(p, pass, error, now, position);
    let asked = p.updated(UpdateStepView::StreamError { pass, error: Some(error), now, position });
    let context = asked.wanted->SpawnRebuild_context;
    law_rebuild_spawned(asked.player, pass, context, true, spawned);
    law_rebuild_polled(later, RebuildPollView::Landed, landed);
    law_landed_rebuild_queues(later, landed);
    let c = later.updated(
        UpdateStepView::RebuildPolled { poll: RebuildPollView::Landed, now: landed },
    ).commands;
    assert(c =~= seq![c[0], c[1], c[2], c[3], c[4]]);
}

/// A tick without a rebuild in flight begins by publishing the current track.
pub proof fn law_tick_begins(p: PlayerView)
    ensures
        ({
            let next = p.updated(UpdateStepView::Start);
            &&& next.player == p
            &&& p.rebuild_in_flight ==> next.wanted is RebuildResult && next.commands.len() == 0
            &&& !p.rebuild_in_flight ==> {
                &&& next.wanted == WantedView::StreamError(Pass::First)
                &&& next.commands == seq![
                    CommandView::SetRunning(p.current < p.list.len()),
                    CommandView::UpdateControls(track_at_position(p)),
                ]
            }
        }),
{
    assert(p.updated(UpdateStepView::Start).commands =~= if p.rebuild_in_flight {
        seq![]
    } else {
        seq![
            CommandView::SetRunning(p.current < p.list.len()),
            CommandView::UpdateControls(track_at_position(p)),
        ]
    });
}

/// After the first stream errors every spinner is one frame further, any other
/// status stays, no track gets or loses one, and the position is within the
/// playlist or right behind it. Nothing else changes.
pub proof fn law_time_passes(p: PlayerView, now: Instant, position: Duration, id: Seq<char>)
    requires
        p.list.len() <= usize::MAX,
    ensures
        ({
            let next = p.updated(no_more_errors(Pass::First, now, position));
            let q = next.player;
            &&& next.wanted is SoundActions
            &&& next.commands.len() == 0
            &&& q == (PlayerView { current: q.current, music_status: q.music_status, ..p })
            &&& p.current <= p.list.len() ==> q.current == p.current
            &&& p.current > p.list.len() ==> q.current == p.list.len()
            &&& q.music_status.contains_key(id) <==> p.music_status.contains_key(id)
            &&& p.music_status.contains_key(id) ==> match p.music_status[id] {
                MusicDownloadStatus::Spinner(frame) => {
                    &&& frame < usize::MAX ==> q.music_status[id] == MusicDownloadStatus::Spinner(
                        (frame + 1) as usize,
                    )
                    &&& frame == usize::MAX ==> q.music_status[id] == MusicDownloadStatus::Spinner(
                        0,
                    )
                },
                other => q.music_status[id] == other,
            }
        }),
{
}

/// After the sound actions, the player is moved on exactly when the current track
/// failed to download, and then the sink is looked at. The player itself stays.
pub proof fn law_failed_current_track_is_left(p: PlayerView)
    ensures
        ({
            let next = p.updated(UpdateStepView::SoundActionsApplied);
            &&& next.player == p
            &&& next.commands.len() == 0
            &&& next.wanted is MoveOn <==> stands_at(
                p,
                p.current as int,
                MusicDownloadStatus::DownloadFailed,
            )
            &&& !(next.wanted is MoveOn) ==> next.wanted is SinkState
        }),
        ({
            let next = p.updated(UpdateStepView::MovedOn);
            next.player == p && next.commands.len() == 0 && next.wanted is SinkState
        }),
{
}

/// A track that was played ends the tick. One whose file cannot be decoded is
/// forgotten, its two files are removed, and the playlist starts over; any other
/// failure is shown as a lost device, in its debug form.
pub proof fn law_played(p: PlayerView, video: VideoView, error: Option<PlayErrorView>)
    ensures
        ({
            let next = p.updated(UpdateStepView::Played { video, error });
            let undecodable = error matches Some(e) && e.kind == PlayErrorKind::DecoderError;
            let c = next.commands;
            &&& next.wanted is Nothing
            &&& same_but_for_download_list(
                PlayerView { current: next.player.current, ..p },
                next.player,
            )
            &&& next.player.current == if undecodable {
                0
            } else {
                p.current
            }
            &&& undecodable ==> {
                &&& c.len() >= 4
                &&& c[0] == CommandView::ForgetVideo(video)
                &&& c[1] == CommandView::RemoveFile {
                    context: ErrorContext::CleanMp4,
                    path: "downloads/"@ + video.video_id + ".mp4"@,
                }
                &&& c[2] == CommandView::RemoveFile {
                    context: ErrorContext::CleanJson,
                    path: "downloads/"@ + video.video_id + ".json"@,
                }
                &&& c[3] == CommandView::SaveDatabase
                &&& forall|i: int| 4 <= i < c.len() ==> (#[trigger] c[i]) is SetDownloadList
            }
            &&& error is Some && !undecodable ==> {
                &&& c.len() >= 1
                &&& c[0] == CommandView::ShowDeviceLost(error->0.text())
                &&& forall|i: int| 1 <= i < c.len() ==> (#[trigger] c[i]) is SetDownloadList
            }
            &&& error is None ==> forall|i: int|
                0 <= i < c.len() ==> (#[trigger] c[i]) is SetDownloadList
        }),
{
}

/// How far a place in the playlist is from being played: the places from the
/// position on come first, in their order, and then those before it, the nearest
/// first.
pub open spec fn distance(p: PlayerView, i: int) -> int {
    if p.current <= i {
        i - p.current
    } else {
        p.list.len() - 1 - i
    }
}

/// `places` are places in the playlist whose tracks wait for their download, the
/// nearest first, each once, at most twelve; and where a waiting place is left out,
/// there are twelve that are all nearer.
pub open spec fn nearest_waiting(p: PlayerView, places: Seq<int>) -> bool {
    &&& places.len() <= 12
    &&& forall|k: int|
        0 <= k < places.len() ==> stands_at(
            p,
            #[trigger] places[k],
            MusicDownloadStatus::NotDownloaded,
        )
    &&& forall|k: int, l: int|
        0 <= k < l < places.len() ==> distance(p, #[trigger] places[k]) < distance(
            p,
            #[trigger] places[l],
        )
    &&& forall|i: int|
        #[trigger] stands_at(p, i, MusicDownloadStatus::NotDownloaded) && !places.contains(i) ==> {
            &&& places.len() == 12
            &&& forall|k: int|
                0 <= k < 12 ==> distance(p, #[trigger] places[k]) < distance(p, i)
        }
}

/// The tracks at some places.
pub open spec fn tracks_at(p: PlayerView, places: Seq<int>) -> Seq<VideoView> {
    Seq::new(places.len(), |k: int| p.list[places[k]])
}

/// The place in the playlist that is `j` tracks from being played.
spec fn place_of(p: PlayerView, j: int) -> int {
    let n = p.list.len() as int;
    let c = if p.current <= n {
        p.current as int
    } else {
        n
    };
    if j < n - c {
        c + j
    } else {
        n - 1 - j
    }
}

/// The places of waiting tracks that are fewer than `m` tracks from being played.
spec fn waiting_before(p: PlayerView, m: int) -> Seq<int>
    decreases m,
{
    if m <= 0 {
        seq![]
    } else {
        let before = waiting_before(p, m - 1);
        let i = place_of(p, m - 1);
        if stands_at(p, i, MusicDownloadStatus::NotDownloaded) {
            before.push(i)
        } else {
            before
        }
    }
}

proof fn lemma_place(p: PlayerView, j: int)
    requires
        0 <= j < p.list.len(),
    ensures
        0 <= place_of(p, j) < p.list.len(),
        distance(p, place_of(p, j)) == j,
        p.download_order().len() == p.list.len(),
        p.download_order()[j] == p.list[place_of(p, j)],
{
    let n = p.list.len() as int;
    let c = if p.current <= n {
        p.current as int
    } else {
        n
    };
    if j < n - c {
        assert(p.download_order()[j] == p.list.skip(c)[j]);
    } else {
        assert(p.download_order()[j] == p.list.take(c).reverse()[j - (n - c)]);
    }
}

proof fn lemma_distance(p: PlayerView, i: int)
    requires
        0 <= i < p.list.len(),
    ensures
        0 <= distance(p, i) < p.list.len(),
        place_of(p, distance(p, i)) == i,
{
}

proof fn lemma_waiting_before(p: PlayerView, m: int)
    requires
        0 <= m <= p.list.len(),
    ensures
        ({
            let w = waiting_before(p, m);
            &&& tracks_at(p, w) == p.download_order().take(m).filter(
                |v: VideoView|
                    crate::status_table::lookup(p.music_status, v.video_id) == Some(
                        MusicDownloadStatus::NotDownloaded,
                    ),
            )
            &&& forall|k: int|
                0 <= k < w.len() ==> stands_at(
                    p,
                    #[trigger] w[k],
                    MusicDownloadStatus::NotDownloaded,
                ) && distance(p, w[k]) < m
            &&& forall|k: int, l: int|
                0 <= k < l < w.len() ==> distance(p, #[trigger] w[k]) < distance(
                    p,
                    #[trigger] w[l],
                )
            &&& forall|i: int|
                #[trigger] stands_at(p, i, MusicDownloadStatus::NotDownloaded) && distance(p, i) < m
                    ==> w.contains(i)
        }),
    decreases m,
{
    let waits = |v: VideoView|
        crate::status_table::lookup(p.music_status, v.video_id) == Some(
            MusicDownloadStatus::NotDownloaded,
        );
    let order = p.download_order();
    let w = waiting_before(p, m);
    if m == 0 {
        assert(order.take(0) =~= Seq::<VideoView>::empty());
        reveal(Seq::filter);
        assert(tracks_at(p, w) =~= order.take(0).filter(waits));
        assert forall|i: int|
            #[trigger] stands_at(p, i, MusicDownloadStatus::NotDownloaded) && distance(p, i)
                < m implies w.contains(i) by {
            lemma_distance(p, i);
        }
    } else {
        lemma_waiting_before(p, m - 1);
        lemma_place(p, m - 1);
        let before = waiting_before(p, m - 1);
        let i = place_of(p, m - 1);
        assert(order.take(m) =~= order.take(m - 1).push(p.list[i]));
        assert(order.take(m).drop_last() =~= order.take(m - 1));
        assert(order.take(m).last() == p.list[i]);
        assert(waits(p.list[i]) == stands_at(p, i, MusicDownloadStatus::NotDownloaded));
        reveal(Seq::filter);
        if stands_at(p, i, MusicDownloadStatus::NotDownloaded) {
            assert(tracks_at(p, w) =~= tracks_at(p, before).push(p.list[i]));
        }
        assert forall|x: int|
            #[trigger] stands_at(p, x, MusicDownloadStatus::NotDownloaded) && distance(p, x)
                < m implies w.contains(x) by {
            lemma_distance(p, x);
            if distance(p, x) < m - 1 {
                let k = choose|k: int| 0 <= k < before.len() && before[k] == x;
                assert(w[k] == x);
            } else {
                assert(x == i);
                assert(w[w.len() - 1] == x);
            }
        }
    }
}

/// The tracks that are downloaded next are those that are played next: of the
/// waiting tracks the nearest ones in the order of playing, from the position to
/// the end and then back from the position to the start, twelve at most. Among
/// places from the position on the smaller comes first, all of these come before
/// the places in front of the position, and no waiting track is left out for one
/// that is farther.
pub proof fn law_nearest_tracks_are_downloaded(p: PlayerView)
    ensures
        exists|places: Seq<int>|
            #![trigger nearest_waiting(p, places)]
            nearest_waiting(p, places) && p.download_list() == tracks_at(p, places),
{
    let n = p.list.len() as int;
    let all = waiting_before(p, n);
    lemma_waiting_before(p, n);
    let order = p.download_order();
    if n > 0 {
        lemma_place(p, 0);
    }
    assert(order.take(n) =~= order);
    let places = if all.len() > 12 {
        all.take(12)
    } else {
        all
    };
    assert(p.download_list() =~= tracks_at(p, places));
    assert forall|i: int|
        #[trigger] stands_at(p, i, MusicDownloadStatus::NotDownloaded) && !places.contains(
            i,
        ) implies places.len() == 12 && forall|k: int|
        0 <= k < 12 ==> distance(p, #[trigger] places[k]) < distance(p, i) by {
        lemma_distance(p, i);
        let l = choose|l: int| 0 <= l < all.len() && all[l] == i;
        if l < places.len() {
            assert(places[l] == i);
        }
        assert forall|k: int| 0 <= k < 12 implies distance(p, #[trigger] places[k]) < distance(
            p,
            i,
        ) by {
            assert(places[k] == all[k]);
        }
    }
    assert(nearest_waiting(p, places));
}

/// What is next to be played is downloaded before what comes later: where a track
/// from the position on waits and the twelve do not hold it, all twelve stand
/// between the position and it.
pub proof fn law_no_track_is_left_for_a_later_one(p: PlayerView, i: int)
    requires
        p.current <= i,
        stands_at(p, i, MusicDownloadStatus::NotDownloaded),
        !p.download_list().contains(p.list[i]),
    ensures
        exists|places: Seq<int>|
            #![trigger tracks_at(p, places)]
            {
                &&& p.download_list() == tracks_at(p, places)
                &&& places.len() == 12
                &&& forall|k: int| 0 <= k < 12 ==> p.current <= #[trigger] places[k] < i
                &&& forall|k: int, l: int|
                    0 <= k < l < 12 ==> #[trigger] places[k] < #[trigger] places[l]
            },
{
    law_nearest_tracks_are_downloaded(p);
    let places = choose|places: Seq<int>|
        #![trigger nearest_waiting(p, places)]
        nearest_waiting(p, places) && p.download_list() == tracks_at(p, places);
    if places.contains(i) {
        let k = choose|k: int| 0 <= k < places.len() && places[k] == i;
        assert(tracks_at(p, places)[k] == p.list[i]);
    }
    assert forall|k: int| 0 <= k < 12 implies p.current <= #[trigger] places[k] < i by {
        assert(stands_at(p, places[k], MusicDownloadStatus::NotDownloaded));
        assert(distance(p, places[k]) < distance(p, i));
    }
    assert forall|k: int, l: int| 0 <= k < l < 12 implies #[trigger] places[k]
        < #[trigger] places[l] by {
        assert(distance(p, places[k]) < distance(p, places[l]));
    }
}

/// A tick that ends hands the download list over exactly when its ids are not
/// those that were handed over last, and remembers them.
pub proof fn law_download_list_is_handed_over(p: PlayerView, before: Seq<CommandView>)
    ensures
        ({
            let next = p.tick_over(before);
            let list = p.download_list();
            let ids = Seq::new(list.len(), |k: int| list[k].video_id);
            &&& next.wanted is Nothing
            &&& next.player.last_download_list == ids
            &&& same_but_for_download_list(p, next.player)
            &&& ids == p.last_download_list ==> next.commands == before
            &&& ids != p.last_download_list ==> next.commands == before.push(
                CommandView::SetDownloadList(list),
            )
        }),
{
    let list = p.download_list();
    let ids = Seq::new(list.len(), |k: int| list[k].video_id);
    assert(p.download_ids() =~= ids);
}

/// Every tick ends so: the list that is handed over last, after whatever else the
/// step orders, is that of the player as the step leaves it.
pub proof fn law_every_tick_hands_over(p: PlayerView, step: UpdateStepView)
    requires
        p.updated(step).wanted is Nothing,
    ensures
        ({
            let next = p.updated(step);
            let list = next.player.download_list();
            let ids = Seq::new(list.len(), |k: int| list[k].video_id);
            let c = next.commands;
            &&& next.player.last_download_list == ids
            &&& ids != p.last_download_list ==> c.len() > 0 && c.last()
                == CommandView::SetDownloadList(list)
            &&& ids == p.last_download_list ==> forall|i: int|
                0 <= i < c.len() ==> !((#[trigger] c[i]) is SetDownloadList)
        }),
{
    let next = p.updated(step);
    let list = next.player.download_list();
    let ids = Seq::new(list.len(), |k: int| list[k].video_id);
    // What the downloader was handed last has no part in the list.
    let q = PlayerView { last_download_list: p.last_download_list, ..next.player };
    assert(q.download_order() == next.player.download_order());
    assert(q.download_list() =~= list);
    assert(q.download_ids() =~= ids);
}

/// A download list is handed over at the end of a tick only.
pub proof fn law_no_list_within_a_tick(p: PlayerView, step: UpdateStepView, i: int)
    requires
        !(p.updated(step).wanted is Nothing),
        0 <= i < p.updated(step).commands.len(),
    ensures
        !(p.updated(step).commands[i] is SetDownloadList),
        p.updated(step).player.last_download_list == p.last_download_list,
{
}

} // verus!
