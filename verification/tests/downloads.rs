use ytermusic::download::{DownloadError, DownloadManagerMessage, Downloader};
use ytermusic::download_manager::{
    DownloadCommand, DownloadManager, DownloadStep, DownloadWanted,
};
use ytermusic::music_download_status::MusicDownloadStatus;
use ytermusic::status_table::StatusTable;
use ytermusic::video::{json_path, mp4_path, YoutubeMusicVideoRef};
use ytermusic::ytdlp::{
    arguments, download_with_ytdlp, keep_stderr_line, video_url, YtDlpStep, YtDlpWanted,
    STDERR_LIMIT,
};

fn song(id: &str) -> YoutubeMusicVideoRef {
    YoutubeMusicVideoRef {
        title: "t".to_string(),
        author: "a".to_string(),
        album: "l".to_string(),
        video_id: id.to_string(),
        duration: "1:00".to_string(),
    }
}

fn report(id: &str, status: MusicDownloadStatus) -> DownloadCommand {
    DownloadCommand::Report(DownloadManagerMessage::VideoStatusUpdate(
        id.to_string(),
        status,
    ))
}

#[test]
fn successful_download_is_recorded_and_released() {
    let mut m = DownloadManager::new(Downloader::YtDlp);
    let s = song("abc");
    assert_eq!(
        m.start_download(&s, DownloadStep::Start),
        (
            vec![report("abc", MusicDownloadStatus::Spinner(0))],
            DownloadWanted::CheckRecord("downloads/abc.json".to_string())
        )
    );
    assert!(m.in_download.contains("abc"));
    assert_eq!(
        m.start_download(&s, DownloadStep::RecordChecked { exists: false }),
        (
            vec![],
            DownloadWanted::CheckAudio("downloads/abc.mp4".to_string())
        )
    );
    assert_eq!(
        m.start_download(&s, DownloadStep::AudioChecked { exists: true }),
        (
            vec![DownloadCommand::RemoveFile("downloads/abc.mp4".to_string())],
            DownloadWanted::Download {
                downloader: Downloader::YtDlp,
                file_name: "abc.mp4".to_string()
            }
        )
    );
    assert_eq!(
        m.start_download(&s, DownloadStep::Downloaded { success: true }),
        (
            vec![
                DownloadCommand::WriteRecord("downloads/abc.json".to_string()),
                DownloadCommand::AppendToDatabase,
                report("abc", MusicDownloadStatus::Downloaded)
            ],
            DownloadWanted::Recording
        )
    );
    assert!(m.in_download.contains("abc"));
    assert_eq!(
        m.start_download(&s, DownloadStep::Recorded),
        (vec![], DownloadWanted::Finished(true))
    );
    assert!(!m.in_download.contains("abc"));
}

#[test]
fn track_in_download_is_refused() {
    let mut m = DownloadManager::new(Downloader::RustyYtdl);
    m.start_download(&song("abc"), DownloadStep::Start);
    assert_eq!(
        m.start_download(&song("abc"), DownloadStep::Start),
        (vec![], DownloadWanted::Finished(false))
    );
    // Another track is not affected.
    assert_eq!(m.start_download(&song("xyz"), DownloadStep::Start).0.len(), 1);
}

#[test]
fn failed_download_is_cleaned_up_and_stays_refused() {
    let mut m = DownloadManager::new(Downloader::RustyYtdl);
    let s = song("abc");
    m.start_download(&s, DownloadStep::Start);
    assert_eq!(
        m.start_download(&s, DownloadStep::Downloaded { success: false }),
        (
            vec![],
            DownloadWanted::CheckLeftover("downloads/abc.mp4".to_string())
        )
    );
    assert_eq!(
        m.start_download(&s, DownloadStep::LeftoverChecked { exists: true }),
        (
            vec![
                DownloadCommand::RemoveFile("downloads/abc.mp4".to_string()),
                report("abc", MusicDownloadStatus::DownloadFailed)
            ],
            DownloadWanted::Finished(false)
        )
    );
    assert_eq!(
        m.start_download(&s, DownloadStep::LeftoverChecked { exists: false }),
        (
            vec![report("abc", MusicDownloadStatus::DownloadFailed)],
            DownloadWanted::Finished(false)
        )
    );
    assert_eq!(
        m.start_download(&s, DownloadStep::Start).1,
        DownloadWanted::Finished(false)
    );
}

#[test]
fn recorded_track_is_not_downloaded_again() {
    let mut m = DownloadManager::new(Downloader::YtDlp);
    let s = song("abc");
    m.start_download(&s, DownloadStep::Start);
    assert_eq!(
        m.start_download(&s, DownloadStep::RecordChecked { exists: true }),
        (
            vec![report("abc", MusicDownloadStatus::Downloaded)],
            DownloadWanted::Finished(true)
        )
    );
    assert!(m.in_download.contains("abc"));
    assert_eq!(
        m.start_download(&s, DownloadStep::AudioChecked { exists: false }).0,
        vec![]
    );
}

#[test]
fn program_is_called_with_its_arguments() {
    assert_eq!(
        video_url("abc"),
        "https://www.youtube.com/watch?v=abc".to_string()
    );
    assert_eq!(
        arguments("abc", "/c/downloads/abc.mp4"),
        vec![
            "--no-playlist",
            "-f",
            "bestaudio[ext=m4a]/bestaudio[ext=mp4]/bestaudio",
            "--merge-output-format",
            "mp4",
            "-o",
            "/c/downloads/abc.mp4",
            "--quiet",
            "--progress",
            "--newline",
            "--progress-template",
            "download:%(progress._percent_str)s",
            "https://www.youtube.com/watch?v=abc",
        ]
    );
}

#[test]
fn run_of_the_program_is_followed() {
    let update = |status| {
        Some(DownloadManagerMessage::VideoStatusUpdate(
            "abc".to_string(),
            status,
        ))
    };
    assert_eq!(
        download_with_ytdlp("abc", "out", YtDlpStep::Start),
        (
            update(MusicDownloadStatus::Spinner(0)),
            YtDlpWanted::Run(arguments("abc", "out"))
        )
    );
    assert_eq!(
        download_with_ytdlp("abc", "out", YtDlpStep::Line(" 12.3%".to_string())),
        (
            update(MusicDownloadStatus::Downloading(12)),
            YtDlpWanted::NextLine
        )
    );
    assert_eq!(
        download_with_ytdlp("abc", "out", YtDlpStep::Line("Destination".to_string())),
        (None, YtDlpWanted::NextLine)
    );
    assert_eq!(
        download_with_ytdlp("abc", "out", YtDlpStep::EndOfOutput),
        (None, YtDlpWanted::Exit)
    );
    let exited = |success| YtDlpStep::Exited {
        success,
        stderr: "no network\n".to_string(),
    };
    assert_eq!(
        download_with_ytdlp("abc", "out", exited(true)).1,
        YtDlpWanted::Finished(Ok(()))
    );
    assert_eq!(
        download_with_ytdlp("abc", "out", exited(false)).1,
        YtDlpWanted::Finished(Err(DownloadError::YtDlpFailed("no network\n".to_string())))
    );
    assert_eq!(
        download_with_ytdlp("abc", "out", YtDlpStep::IoFailed("not found".to_string())),
        (
            None,
            YtDlpWanted::Finished(Err(DownloadError::IoError("not found".to_string())))
        )
    );
}

#[test]
fn error_output_is_trimmed_and_bounded() {
    let mut kept = String::new();
    keep_stderr_line(&mut kept, "  ERROR: gone \r\n");
    keep_stderr_line(&mut kept, "\n");
    assert_eq!(kept, "ERROR: gone\n\n");

    // The limit counts bytes, and the line that reaches it is kept whole.
    let mut kept = "é".repeat(STDERR_LIMIT / 2 - 1);
    keep_stderr_line(&mut kept, "xyz");
    assert_eq!(kept.len(), STDERR_LIMIT + 2);
    let full = kept.clone();
    keep_stderr_line(&mut kept, "more");
    assert_eq!(kept, full);
}

#[test]
fn errors_have_messages() {
    assert_eq!(
        DownloadError::YtDlpFailed("a".to_string()).message(),
        "yt-dlp failed: a"
    );
    assert_eq!(
        DownloadError::IoError("b".to_string()).message(),
        "IO error: b"
    );
    assert_eq!(
        DownloadError::RustyYtdl("c".to_string()).message(),
        "rusty_ytdl error: c"
    );
}

#[test]
fn files_are_kept_under_downloads() {
    assert_eq!(mp4_path("x"), "downloads/x.mp4");
    assert_eq!(json_path("x"), "downloads/x.json");
}

#[test]
fn status_table_keeps_and_ticks_statuses() {
    let mut t = StatusTable::new();
    assert_eq!(t.get("a"), None);
    t.insert("a".to_string(), MusicDownloadStatus::Spinner(9));
    t.insert("b".to_string(), MusicDownloadStatus::Downloaded);
    t.insert("a".to_string(), MusicDownloadStatus::Spinner(4));
    t.tick();
    assert_eq!(t.get("a"), Some(MusicDownloadStatus::Spinner(5)));
    assert_eq!(t.get("b"), Some(MusicDownloadStatus::Downloaded));
    assert_eq!(t.get("c"), None);
}

#[test]
fn every_download_ends_with_its_outcome() {
    for record in [false, true] {
        for audio in [false, true] {
            for success in [false, true] {
                for leftover in [false, true] {
                    let mut m = DownloadManager::new(Downloader::YtDlp);
                    let s = song("abc");
                    let mut all: Vec<DownloadCommand> = Vec::new();
                    let mut step = DownloadStep::Start;
                    let there = loop {
                        let (commands, wanted) = m.start_download(&s, step);
                        all.extend(commands);
                        step = match wanted {
                            DownloadWanted::CheckRecord(_) => {
                                DownloadStep::RecordChecked { exists: record }
                            }
                            DownloadWanted::CheckAudio(_) => {
                                DownloadStep::AudioChecked { exists: audio }
                            }
                            DownloadWanted::Download { .. } => DownloadStep::Downloaded { success },
                            DownloadWanted::Recording => DownloadStep::Recorded,
                            DownloadWanted::CheckLeftover(_) => {
                                DownloadStep::LeftoverChecked { exists: leftover }
                            }
                            DownloadWanted::Finished(there) => break there,
                        };
                    };
                    assert_eq!(there, record || success);
                    assert_eq!(all[0], report("abc", MusicDownloadStatus::Spinner(0)));
                    let outcome = if there {
                        MusicDownloadStatus::Downloaded
                    } else {
                        MusicDownloadStatus::DownloadFailed
                    };
                    assert_eq!(all.last(), Some(&report("abc", outcome)));
                    assert_eq!(m.in_download.contains("abc"), record || !success);
                }
            }
        }
    }
}
