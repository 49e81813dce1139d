use ytermusic::music_download_status::{MusicDownloadStatus, SPINNER_FRAMES};

/// The download status block must always be exactly 7 chars wide
/// ("⭳ [xxx]"), so the playlist column never shifts while downloading.
#[test]
fn downloading_and_spinner_stay_fixed_width() {
    assert_eq!(
        MusicDownloadStatus::Spinner(0)
            .character(None)
            .chars()
            .count(),
        7
    );
    assert_eq!(
        MusicDownloadStatus::Spinner(5)
            .character(None)
            .chars()
            .count(),
        7
    );
    for p in [0, 1, 12, 50, 99] {
        assert_eq!(
            MusicDownloadStatus::Downloading(p)
                .character(None)
                .chars()
                .count(),
            7,
            "percent {p} should stay 3-wide inside the brackets"
        );
    }
    assert_eq!(
        MusicDownloadStatus::Downloading(100)
            .character(None)
            .chars()
            .count(),
        7
    );
}

#[test]
fn hundred_percent_shows_check() {
    assert_eq!(
        MusicDownloadStatus::Downloading(100).character(None),
        "⭳ [ ✓ ]"
    );
    assert_eq!(
        MusicDownloadStatus::Downloading(99).character(None),
        "⭳ [99%]"
    );
    assert_eq!(
        MusicDownloadStatus::Downloading(1).character(None),
        "⭳ [01%]"
    );
    assert_eq!(MusicDownloadStatus::Spinner(3).character(None), "⭳ [ ⠸ ]");
}

#[test]
fn every_percentage_is_shown_as_formatted() {
    for p in 0..100usize {
        assert_eq!(
            MusicDownloadStatus::Downloading(p).character(Some(true)),
            format!("⭳ [{:02}%]", p)
        );
    }
    assert_eq!(
        MusicDownloadStatus::Downloading(usize::MAX).character(None),
        "⭳ [ ✓ ]"
    );
}

#[test]
fn other_statuses_take_one_character() {
    assert_eq!(MusicDownloadStatus::NotDownloaded.character(None), " ");
    assert_eq!(
        MusicDownloadStatus::NotDownloaded.character(Some(true)),
        "▶"
    );
    assert_eq!(
        MusicDownloadStatus::NotDownloaded.character(Some(false)),
        "⏸"
    );
    assert_eq!(MusicDownloadStatus::Downloaded.character(Some(true)), " ");
    assert_eq!(MusicDownloadStatus::DownloadFailed.character(None), "⚠");
}

#[test]
fn spinner_moves_and_turns() {
    for frame in 0..30usize {
        let now = MusicDownloadStatus::Spinner(frame);
        assert_eq!(now.tick(), MusicDownloadStatus::Spinner(frame + 1));
        assert_ne!(now.tick().character(None), now.character(None));
        assert_eq!(
            now.character(None),
            MusicDownloadStatus::Spinner(frame + 10).character(None)
        );
        assert_eq!(
            now.character(None),
            format!("⭳ [ {} ]", SPINNER_FRAMES[frame % SPINNER_FRAMES.len()])
        );
    }
    assert_eq!(
        MusicDownloadStatus::Spinner(usize::MAX).tick(),
        MusicDownloadStatus::Spinner(0)
    );
    assert_eq!(
        MusicDownloadStatus::Downloading(3).tick(),
        MusicDownloadStatus::Downloading(3)
    );
}
