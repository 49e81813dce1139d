use ytermusic::clock::{Duration, Instant};
use ytermusic::music_download_status::MusicDownloadStatus;
use ytermusic::play_error::PlayError;
use ytermusic::player_command::{ErrorContext, PlayerCommand};
use ytermusic::player_state::{PlayerState, RebuildContext};
use ytermusic::rebuild::{rebuild_thread_name, RebuildPoll, Recovery, REBUILD_TIMEOUT};
use ytermusic::update::{Pass, UpdateStep, Wanted};
use ytermusic::video::YoutubeMusicVideoRef;

fn song(id: &str) -> YoutubeMusicVideoRef {
    YoutubeMusicVideoRef {
        title: format!("title {id}"),
        author: "a".to_string(),
        album: "l".to_string(),
        video_id: id.to_string(),
        duration: "1:00".to_string(),
    }
}

fn player(statuses: &[(&str, MusicDownloadStatus)]) -> PlayerState {
    let mut p = PlayerState::new();
    for (id, status) in statuses {
        p.list.push(song(id));
        p.music_status.insert(id.to_string(), *status);
    }
    p
}

fn at(secs: u64) -> Instant {
    Instant::from_nanos(0) + Duration::from_secs(secs)
}

fn no_device_report() -> PlayerCommand {
    PlayerCommand::ReportError {
        context: ErrorContext::DeviceRecovery,
        error: PlayError::StreamError("NoDevice".to_string()),
    }
}

fn lost(secs: u64) -> UpdateStep {
    UpdateStep::StreamError {
        pass: Pass::First,
        error: Some(PlayError::DeviceStreamError("DeviceNotAvailable".to_string())),
        now: at(secs),
        position: Duration::from_secs(42),
    }
}

fn end_of_errors(pass: Pass) -> UpdateStep {
    UpdateStep::StreamError {
        pass,
        error: None,
        now: at(0),
        position: Duration::from_secs(0),
    }
}

#[test]
fn recovery_runs_off_the_ui_thread_and_pauses() {
    let mut ps = player(&[("x", MusicDownloadStatus::Downloaded)]);

    // request_recovery only asks for a worker; nothing is opened here.
    let context = match ps.request_recovery("test", at(100), Duration::from_secs(42)) {
        Recovery::Rebuild(context) => context,
        other => panic!("{other:?}"),
    };
    assert_eq!(context.reason, "test");
    ps.rebuild_spawned(context, at(100));
    assert!(ps.rebuild_in_flight);

    // A tick keeps returning while the rebuild is in flight.
    assert_eq!(ps.update(UpdateStep::Start), (vec![], Wanted::RebuildResult));
    let (commands, wanted) = ps.update(UpdateStep::RebuildPolled {
        poll: RebuildPoll::Pending,
        now: at(101),
    });
    assert_eq!(
        commands,
        vec![
            PlayerCommand::SetRunning(true),
            PlayerCommand::UpdateControls(Some(song("x")))
        ]
    );
    assert_eq!(wanted, Wanted::StreamError(Pass::First));
    assert!(ps.rebuild_in_flight);

    // Eventually the result is applied (swap, requeue and pause).
    let (commands, _) = ps.update(UpdateStep::RebuildPolled {
        poll: RebuildPoll::Landed,
        now: at(102),
    });
    assert_eq!(
        commands,
        vec![
            PlayerCommand::UseRebuiltPlayer,
            PlayerCommand::ResumeAt {
                path: "downloads/x.mp4".to_string(),
                position: Duration::from_secs(42)
            },
            PlayerCommand::Pause,
            PlayerCommand::SetRunning(true),
            PlayerCommand::UpdateControls(Some(song("x")))
        ]
    );
    assert!(!ps.rebuild_in_flight);
    assert_eq!(ps.rebuild_started_at, None);
    assert_eq!(ps.pending_requeue, None);

    // A new player, without a track, is recovered and paused in the same way.
    let mut ps = PlayerState::new();
    let context = match ps.request_recovery("test", at(100), Duration::from_secs(0)) {
        Recovery::Rebuild(context) => context,
        other => panic!("{other:?}"),
    };
    ps.rebuild_spawned(context, at(100));
    assert_eq!(ps.update(UpdateStep::Start), (vec![], Wanted::RebuildResult));
    let (commands, wanted) = ps.update(UpdateStep::RebuildPolled {
        poll: RebuildPoll::Landed,
        now: at(101),
    });
    assert_eq!(
        commands,
        vec![
            PlayerCommand::UseRebuiltPlayer,
            PlayerCommand::Pause,
            PlayerCommand::SetRunning(false),
            PlayerCommand::UpdateControls(None)
        ]
    );
    assert_eq!(wanted, Wanted::StreamError(Pass::First));
    assert!(!ps.rebuild_in_flight);
}

#[test]
fn position_stays_in_the_playlist() {
    let steps = || {
        vec![
            UpdateStep::Start,
            UpdateStep::RebuildPolled {
                poll: RebuildPoll::Landed,
                now: at(1),
            },
            lost(1),
            end_of_errors(Pass::First),
            end_of_errors(Pass::Second),
            UpdateStep::SoundActionsApplied,
            UpdateStep::MovedOn,
            UpdateStep::SinkPolled { finished: true },
            UpdateStep::SinkPolled { finished: false },
            UpdateStep::Played {
                video: song("a"),
                error: None,
            },
        ]
    };
    for status in [
        MusicDownloadStatus::Downloaded,
        MusicDownloadStatus::DownloadFailed,
    ] {
        for current in 0..3usize {
            for step in steps() {
                let mut ps = player(&[("a", status), ("b", status)]);
                ps.current = current;
                ps.rtcurrent = ps.current().cloned();
                ps.update(step);
                assert!(ps.current <= 2);
                assert_eq!(ps.list.len(), 2);
            }
        }
    }
    let mut ps = player(&[("a", MusicDownloadStatus::Downloaded)]);
    ps.current = 9;
    ps.update(end_of_errors(Pass::First));
    assert_eq!(ps.current, 1);
}

#[test]
fn recovered_player_stays_paused() {
    let mut ps = player(&[("x", MusicDownloadStatus::Downloaded)]);
    let context = ps.start_rebuild("test", Duration::from_secs(1));
    ps.rebuild_spawned(context, at(0));
    let mut commands = ps
        .update(UpdateStep::RebuildPolled {
            poll: RebuildPoll::Landed,
            now: at(1),
        })
        .0;
    for step in [
        end_of_errors(Pass::First),
        UpdateStep::SoundActionsApplied,
        UpdateStep::SinkPolled { finished: false },
        UpdateStep::Start,
        end_of_errors(Pass::First),
        UpdateStep::SoundActionsApplied,
        UpdateStep::SinkPolled { finished: false },
    ] {
        let (more, wanted) = ps.update(step);
        assert!(!matches!(wanted, Wanted::Play(_)));
        commands.extend(more);
    }
    let last = commands.iter().rev().find(|c| {
        matches!(
            c,
            PlayerCommand::UseRebuiltPlayer | PlayerCommand::ResumeAt { .. } | PlayerCommand::Pause
        )
    });
    assert_eq!(last, Some(&PlayerCommand::Pause));

    // Without a playlist nothing is played, even when the sink is finished.
    let mut empty = PlayerState::new();
    empty.update(UpdateStep::SinkPolled { finished: true });
    assert_eq!(empty.update(end_of_errors(Pass::Second)).1, Wanted::Nothing);
}

#[test]
fn track_changed_during_rebuild_is_not_queued() {
    let mut ps = player(&[
        ("x", MusicDownloadStatus::Downloaded),
        ("y", MusicDownloadStatus::Downloaded),
    ]);
    let context = ps.start_rebuild("test", Duration::from_secs(1));
    ps.rebuild_spawned(context, at(0));
    ps.set_relative_current(1);
    assert_eq!(
        ps.apply_rebuild_result(RebuildPoll::Landed, at(1)),
        vec![PlayerCommand::UseRebuiltPlayer, PlayerCommand::Pause]
    );
}

#[test]
fn track_that_was_not_downloaded_is_not_queued() {
    let mut ps = player(&[("x", MusicDownloadStatus::Downloading(40))]);
    let context = ps.start_rebuild("test", Duration::from_secs(1));
    assert_eq!(
        context,
        RebuildContext {
            position: Duration::from_secs(1),
            video: Some(song("x")),
            downloaded: false,
            reason: "test".to_string()
        }
    );
    ps.rebuild_spawned(context, at(0));
    assert_eq!(
        ps.apply_rebuild_result(RebuildPoll::Landed, at(1)),
        vec![PlayerCommand::UseRebuiltPlayer, PlayerCommand::Pause]
    );
}

#[test]
fn rebuild_without_context_pauses() {
    let mut ps = player(&[]);
    ps.rebuild_in_flight = true;
    assert_eq!(
        ps.apply_rebuild_result(RebuildPoll::Landed, at(1)),
        vec![PlayerCommand::UseRebuiltPlayer, PlayerCommand::Pause]
    );
}

#[test]
fn overdue_rebuild_counts_as_failure() {
    let mut ps = player(&[("x", MusicDownloadStatus::Downloaded)]);
    let context = ps.start_rebuild("test", Duration::from_secs(1));
    ps.rebuild_spawned(context, at(50));
    let just_before = Instant::from_nanos(at(50).nanos + REBUILD_TIMEOUT - 1);
    assert_eq!(
        ps.apply_rebuild_result(RebuildPoll::Pending, just_before),
        vec![]
    );
    assert!(ps.rebuild_in_flight);
    assert_eq!(
        ps.apply_rebuild_result(RebuildPoll::Pending, at(60)),
        vec![no_device_report()]
    );
    assert!(!ps.rebuild_in_flight);
    assert_eq!(ps.recovery.consecutive_failures, 1);
}

#[test]
fn late_result_is_preferred_over_the_timeout() {
    let mut ps = player(&[("x", MusicDownloadStatus::Downloaded)]);
    ps.recovery.record_failure();
    let context = ps.start_rebuild("test", Duration::from_secs(1));
    ps.rebuild_spawned(context, at(0));
    let commands = ps.apply_rebuild_result(RebuildPoll::Landed, at(1000));
    assert_eq!(commands.last(), Some(&PlayerCommand::Pause));
    assert_eq!(ps.recovery.consecutive_failures, 0);
}

#[test]
fn failed_rebuild_is_reported() {
    let mut ps = player(&[]);
    let context = ps.start_rebuild("test", Duration::from_secs(1));
    ps.rebuild_spawned(context, at(0));
    let error = || PlayError::StreamError("BuildStreamError(x)".to_string());
    assert_eq!(
        ps.apply_rebuild_result(RebuildPoll::Failed(error()), at(1)),
        vec![PlayerCommand::ReportError {
            context: ErrorContext::DeviceRecovery,
            error: error()
        }]
    );
    assert_eq!(ps.recovery.consecutive_failures, 1);
    // Without a rebuild in flight nothing happens.
    assert_eq!(
        ps.apply_rebuild_result(RebuildPoll::Failed(error()), at(1)),
        vec![]
    );
    assert_eq!(ps.recovery.consecutive_failures, 1);
}

#[test]
fn device_errors_are_recovered_from_at_a_limited_rate() {
    let mut ps = player(&[("x", MusicDownloadStatus::Downloaded)]);
    let (commands, wanted) = ps.update(lost(100));
    assert_eq!(commands, vec![]);
    let context = match wanted {
        Wanted::SpawnRebuild { pass, context } => {
            assert_eq!(pass, Pass::First);
            context
        }
        other => panic!("{other:?}"),
    };
    assert_eq!(context.reason, "device stream error");
    assert_eq!(
        rebuild_thread_name(&context.reason),
        "yt-audio-rebuild-device stream error"
    );
    assert_eq!(
        ps.update(UpdateStep::RebuildSpawned {
            pass: Pass::First,
            context,
            spawned: true,
            now: at(100)
        }),
        (vec![], Wanted::StreamError(Pass::First))
    );
    // One at a time.
    assert_eq!(
        ps.update(lost(105)),
        (vec![], Wanted::StreamError(Pass::First))
    );
    assert_eq!(ps.restart_player(Duration::from_secs(0)), None);
    ps.apply_rebuild_result(RebuildPoll::Landed, at(101));
    // Within the cooldown.
    assert_eq!(
        ps.update(lost(101)),
        (vec![], Wanted::StreamError(Pass::First))
    );
    assert!(ps.restart_player(Duration::from_secs(0)).is_some());
    assert!(matches!(ps.update(lost(102)).1, Wanted::SpawnRebuild { .. }));
}

#[test]
fn repeated_failures_are_surfaced() {
    let mut ps = player(&[]);
    for i in 1..4u64 {
        let context = match ps.update(lost(i * 30)).1 {
            Wanted::SpawnRebuild { context, .. } => context,
            other => panic!("{other:?}"),
        };
        assert_eq!(
            ps.update(UpdateStep::RebuildSpawned {
                pass: Pass::Second,
                context,
                spawned: false,
                now: at(i * 30)
            }),
            (vec![no_device_report()], Wanted::StreamError(Pass::Second))
        );
        assert!(!ps.rebuild_in_flight);
    }
    assert_eq!(
        ps.update(lost(1000)),
        (vec![no_device_report()], Wanted::StreamError(Pass::First))
    );
    // The user may still retry.
    let context = ps.restart_player(Duration::from_secs(3)).unwrap();
    assert_eq!(context.reason, "manual retry");
}

#[test]
fn other_stream_errors_are_reported() {
    let mut ps = player(&[]);
    let error = || PlayError::SeekError("x".to_string());
    assert_eq!(
        ps.update(UpdateStep::StreamError {
            pass: Pass::Second,
            error: Some(error()),
            now: at(0),
            position: Duration::from_secs(0)
        }),
        (
            vec![PlayerCommand::ReportError {
                context: ErrorContext::DeviceStream,
                error: error()
            }],
            Wanted::StreamError(Pass::Second)
        )
    );
    assert_eq!(ErrorContext::DeviceStream.heading(), "audio device stream error");
    assert_eq!(
        ErrorContext::DeviceRecovery.heading(),
        "audio device recovery failed"
    );
    assert_eq!(ErrorContext::CleanMp4.heading(), "invalid cleaning MP4");
    assert_eq!(ErrorContext::CleanJson.heading(), "invalid cleaning JSON");
}

#[test]
fn position_moves_within_its_range() {
    let mut ps = player(&[
        ("x", MusicDownloadStatus::Downloaded),
        ("y", MusicDownloadStatus::DownloadFailed),
    ]);
    assert_eq!(ps.current(), Some(&song("x")));
    assert_eq!(ps.relative_current(1), Some(&song("y")));
    assert_eq!(ps.relative_current(2), None);
    assert_eq!(ps.relative_current(-1), Some(&song("x")));
    assert_eq!(ps.relative_current(isize::MIN), Some(&song("x")));
    assert!(ps.is_current_downloaded());
    assert!(!ps.is_current_download_failed());
    ps.set_relative_current(1);
    assert!(ps.is_current_download_failed());
    ps.set_relative_current(-7);
    assert_eq!(ps.current, 0);
    ps.current = usize::MAX;
    ps.set_relative_current(1);
    assert_eq!(ps.current, usize::MAX);
    assert_eq!(ps.current(), None);
    assert!(!ps.is_current_downloaded());
    assert!(!ps.is_current_download_failed());
}

#[test]
fn first_half_of_a_tick_turns_spinners_and_clamps() {
    let mut ps = player(&[
        ("x", MusicDownloadStatus::Spinner(3)),
        ("y", MusicDownloadStatus::DownloadFailed),
    ]);
    ps.current = 9;
    assert_eq!(
        ps.update(UpdateStep::Start),
        (
            vec![
                PlayerCommand::SetRunning(false),
                PlayerCommand::UpdateControls(None)
            ],
            Wanted::StreamError(Pass::First)
        )
    );
    assert_eq!(
        ps.update(end_of_errors(Pass::First)),
        (vec![], Wanted::SoundActions)
    );
    assert_eq!(ps.current, 2);
    assert_eq!(
        ps.music_status.get("x"),
        Some(MusicDownloadStatus::Spinner(4))
    );
    assert_eq!(
        ps.update(UpdateStep::SoundActionsApplied),
        (vec![], Wanted::SinkState)
    );
    ps.current = 1;
    assert_eq!(
        ps.update(UpdateStep::SoundActionsApplied),
        (vec![], Wanted::MoveOn)
    );
    assert_eq!(ps.update(UpdateStep::MovedOn), (vec![], Wanted::SinkState));
}

#[test]
fn finished_track_is_followed_by_the_next_that_did_not_fail() {
    let mut ps = player(&[
        ("a", MusicDownloadStatus::Downloaded),
        ("b", MusicDownloadStatus::DownloadFailed),
        ("c", MusicDownloadStatus::DownloadFailed),
        ("d", MusicDownloadStatus::Downloaded),
    ]);
    assert_eq!(
        ps.update(UpdateStep::SinkPolled { finished: false }),
        (vec![], Wanted::Nothing)
    );
    assert_eq!(ps.rtcurrent, Some(song("a")));
    assert_eq!(
        ps.update(UpdateStep::SinkPolled { finished: true }),
        (vec![], Wanted::StreamError(Pass::Second))
    );
    assert_eq!(ps.current, 1);
    assert_eq!(
        ps.update(end_of_errors(Pass::Second)),
        (
            vec![PlayerCommand::UpdateControls(Some(song("b")))],
            Wanted::Play(song("d"))
        )
    );
    assert_eq!(ps.current, 3);
    assert_eq!(
        ps.update(UpdateStep::Played {
            video: song("d"),
            error: None
        }),
        (vec![], Wanted::Nothing)
    );
}

#[test]
fn new_track_is_played_where_the_sink_is_empty() {
    let mut ps = player(&[("a", MusicDownloadStatus::Downloaded)]);
    // The sink has played something else, so the position stays.
    ps.rtcurrent = Some(song("z"));
    ps.update(UpdateStep::SinkPolled { finished: true });
    assert_eq!(ps.current, 0);
    assert_eq!(ps.update(end_of_errors(Pass::Second)).1, Wanted::Play(song("a")));
    // A track with the same id in other words is another one.
    let mut other = song("a");
    other.title = "other".to_string();
    ps.rtcurrent = Some(other);
    ps.update(UpdateStep::SinkPolled { finished: true });
    assert_eq!(ps.current, 0);
}

#[test]
fn undecodable_file_is_removed() {
    let mut ps = player(&[("a", MusicDownloadStatus::Downloaded)]);
    ps.current = 1;
    assert_eq!(
        ps.update(UpdateStep::Played {
            video: song("a"),
            error: Some(PlayError::DecoderError("UnrecognizedFormat".to_string()))
        }),
        (
            vec![
                PlayerCommand::ForgetVideo(song("a")),
                PlayerCommand::RemoveFile {
                    context: ErrorContext::CleanMp4,
                    path: "downloads/a.mp4".to_string()
                },
                PlayerCommand::RemoveFile {
                    context: ErrorContext::CleanJson,
                    path: "downloads/a.json".to_string()
                },
                PlayerCommand::SaveDatabase
            ],
            Wanted::Nothing
        )
    );
    assert_eq!(ps.current, 0);
    assert_eq!(
        ps.update(UpdateStep::Played {
            video: song("a"),
            error: Some(PlayError::PlayError("NoDevice".to_string()))
        }),
        (
            vec![PlayerCommand::ShowDeviceLost("PlayError(NoDevice)".to_string())],
            Wanted::Nothing
        )
    );
}

#[test]
fn download_list_goes_forward_then_back() {
    let ids: Vec<String> = (0..20).map(|i| format!("v{i}")).collect();
    let mut ps = PlayerState::new();
    for id in &ids {
        ps.list.push(song(id));
        ps.music_status
            .insert(id.clone(), MusicDownloadStatus::NotDownloaded);
    }
    ps.music_status
        .insert("v17".to_string(), MusicDownloadStatus::Downloaded);
    ps.current = 15;
    let expected: Vec<YoutubeMusicVideoRef> = [15, 16, 18, 19, 14, 13, 12, 11, 10, 9, 8, 7]
        .iter()
        .map(|i| song(&format!("v{i}")))
        .collect();
    assert_eq!(ps.tracks_to_download(), expected);

    // The downloader is told once.
    assert_eq!(
        ps.update(UpdateStep::SinkPolled { finished: false }).0,
        vec![PlayerCommand::SetDownloadList(expected)]
    );
    assert_eq!(
        ps.update(UpdateStep::SinkPolled { finished: false }).0,
        vec![]
    );
    assert_eq!(ps.last_download_list.len(), 12);
    assert_eq!(ps.last_download_list[4], "v14");

    // A position behind the end counts from the end.
    ps.current = 99;
    assert_eq!(ps.tracks_to_download()[0], song("v19"));
    // A track without a status is not downloaded.
    ps.list = vec![song("unknown")];
    assert_eq!(ps.tracks_to_download(), vec![]);
}

#[test]
fn tick_comes_to_its_end() {
    let mut ps = player(&[
        ("a", MusicDownloadStatus::DownloadFailed),
        ("b", MusicDownloadStatus::Downloaded),
    ]);
    let context = ps.start_rebuild("test", Duration::from_secs(1));
    ps.rebuild_spawned(context, at(1));
    let mut errors = vec![
        PlayError::SeekError("x".to_string()),
        PlayError::no_device(),
        PlayError::Io("y".to_string()),
    ];
    let mut wanted_in_turn: Vec<String> = Vec::new();
    let mut step = UpdateStep::Start;
    loop {
        let (_, wanted) = ps.update(step);
        wanted_in_turn.push(format!("{wanted:?}").split(['(', ' ']).next().unwrap().to_string());
        step = match wanted {
            Wanted::RebuildResult => UpdateStep::RebuildPolled {
                poll: RebuildPoll::Landed,
                now: at(5),
            },
            Wanted::StreamError(pass) => UpdateStep::StreamError {
                pass,
                error: errors.pop(),
                now: at(5),
                position: Duration::from_secs(0),
            },
            Wanted::SpawnRebuild { pass, context } => UpdateStep::RebuildSpawned {
                pass,
                context,
                spawned: true,
                now: at(5),
            },
            Wanted::SoundActions => UpdateStep::SoundActionsApplied,
            Wanted::MoveOn => {
                ps.set_relative_current(1);
                UpdateStep::MovedOn
            }
            Wanted::SinkState => UpdateStep::SinkPolled { finished: true },
            Wanted::Play(video) => UpdateStep::Played { video, error: None },
            Wanted::Nothing => break,
        };
    }
    assert_eq!(
        wanted_in_turn,
        vec![
            "RebuildResult",
            "StreamError",
            "StreamError",
            "SpawnRebuild",
            "StreamError",
            "StreamError",
            "SoundActions",
            "MoveOn",
            "SinkState",
            "StreamError",
            "Play",
            "Nothing"
        ]
    );
    assert!(ps.rebuild_in_flight);
}
