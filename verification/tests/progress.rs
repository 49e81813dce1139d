use ytermusic::chunked_download::{
    compare_audio_bitrate, is_audio_mp4, ChunkStep, ChunkWanted, ChunkedDownload,
};
use ytermusic::done_percent::done_percent;
use ytermusic::download::{DownloadError, DownloadManagerMessage};
use ytermusic::music_download_status::MusicDownloadStatus;
use ytermusic::progress::parse_progress_percent;
use ytermusic::text::{trim, white_space};

#[test]
fn parses_percent_lines() {
    assert_eq!(parse_progress_percent("  0.0%"), Some(0));
    assert_eq!(parse_progress_percent(" 12.3%"), Some(12));
    assert_eq!(parse_progress_percent("100.0%"), Some(100));
    assert_eq!(parse_progress_percent("99.6%"), Some(100));
    assert_eq!(parse_progress_percent("  1%"), Some(1));
}

#[test]
fn ignores_non_percent_lines() {
    assert_eq!(
        parse_progress_percent("[download] Destination: x.mp4"),
        None
    );
    assert_eq!(parse_progress_percent(""), None);
    assert_eq!(parse_progress_percent("100%"), Some(100));
}

/// The percentage by floating-point arithmetic.
fn float_percent(line: &str) -> Option<usize> {
    let value = line.trim().strip_suffix('%')?;
    let percent: f64 = value.trim().parse().ok()?;
    Some((percent.round() as usize).clamp(0, 100))
}

#[test]
fn percentages_agree_with_floating_point() {
    let numbers = [
        "0", "00", "-0", "+0", "5", "+5", "-5", "0.4", "0.5", "0.49999999999999994",
        "0.49999999999999997", "0.4999999999999999722", "0.4999999999999999723",
        "0.49999999999999997224442438437108648940920829772949", "1.5", "1.4999999999999998",
        "1.49999999999999988", "1.4999999999999999", "12.499999999999999", "12.4999999999999991",
        "12.49999999999999911182158029987", "12.49999999999999911182158029988",
        "63.49999999999999644728632119949907064437866210937500",
        "63.49999999999999644728632119949907064437866210937499", "64.49999999999999289457264239899",
        "64.4999999999999928945726423989", "99.49999999999999", "99.499999999999993",
        "99.4999999999999929", "99.5", "100", "100.4", "127.9", "128", "1000000", "1e2", "1E2",
        "1e+2", "1e-2", "5e-1", "4.9e-1", "1e1000000000000000000000000000000000000000",
        "0e1000000000000000000000000000000000000000", "1e-1000000000000000000000000000000000000000",
        "0.0000000000000000000000000000000001e36", "12345678901234567890e-18", "1.", ".5", ".",
        "", "+", "-", "e5", "1e", "1e+", "1e5.0", "1.2.3", "0x10", "1_000", "inf", "-inf", "+INF",
        "Infinity", "-infinity", "infinit", "nan", "-NaN", "nano", "1 2", "1,5", "１", "²", "1e ",
        "\u{a0}7\u{3000}", "\u{200b}7", "7f", "7%", "--7",
    ];
    for number in numbers {
        for line in [
            format!("{number}%"),
            format!("  {number} %\n"),
            format!("\t{number}"),
            format!("{number}%%"),
        ] {
            assert_eq!(
                parse_progress_percent(&line),
                float_percent(&line),
                "line {line:?}"
            );
        }
    }
}

#[test]
fn rounding_boundaries_agree_with_floating_point() {
    for k in 0..101usize {
        let half = k as f64 + 0.5;
        let below = f64::from_bits(half.to_bits() - 1);
        let above = f64::from_bits(half.to_bits() + 1);
        for value in [half, below, above] {
            for digits in [3usize, 10, 14, 15, 16, 17, 20, 40, 60] {
                let line = format!("{value:.digits$}%");
                assert_eq!(parse_progress_percent(&line), float_percent(&line), "{line}");
            }
        }
    }
    let mut seed: u64 = 7;
    for _ in 0..20000 {
        seed = seed.wrapping_mul(6364136223846793005).wrapping_add(1442695040888963407);
        let line = format!("{}.{:09}e{}%", (seed >> 40) % 1000, seed % 1_000_000_000, (seed >> 20) % 7);
        assert_eq!(parse_progress_percent(&line), float_percent(&line), "{line}");
        let line = format!("{}.{}e-{}%", (seed >> 33), seed % 1_000_000_007, (seed >> 20) % 13);
        assert_eq!(parse_progress_percent(&line), float_percent(&line), "{line}");
    }
}

#[test]
fn white_space_is_that_of_unicode() {
    for n in 0..0x110000u32 {
        if let Some(c) = char::from_u32(n) {
            assert_eq!(white_space(c), c.is_whitespace(), "{n:x}");
        }
    }
    for s in ["", " ", "a", " a b ", "\u{2003}x\n", "\r\n\t", "é \u{85}"] {
        assert_eq!(trim(s), s.trim());
    }
}

#[test]
fn done_percent_agrees_with_floating_point() {
    let values: [usize; 24] = [
        0, 1, 2, 3, 7, 29, 57, 99, 100, 101, 1000, 65536, 102400, 4194303, 4194304, 123456789,
        (1 << 53) - 1, 1 << 53, (1 << 53) + 1, (1 << 53) + 3, (1 << 60) + 12345, usize::MAX / 3,
        usize::MAX - 1023, usize::MAX,
    ];
    for part in values {
        for whole in values {
            let float = (part as f64 / whole as f64 * 100.0) as usize;
            assert_eq!(done_percent(part, whole), float, "{part}/{whole}");
        }
    }
    for whole in 1..400usize {
        for part in 0..500usize {
            let float = (part as f64 / whole as f64 * 100.0) as usize;
            assert_eq!(done_percent(part, whole), float, "{part}/{whole}");
        }
    }
    let mut seed: u64 = 99;
    for _ in 0..20000 {
        seed = seed.wrapping_mul(6364136223846793005).wrapping_add(1442695040888963407);
        let whole = (seed >> (seed % 60)) as usize;
        seed = seed.wrapping_mul(6364136223846793005).wrapping_add(1442695040888963407);
        let part = (seed >> (seed % 60)) as usize;
        let float = (part as f64 / whole as f64 * 100.0) as usize;
        assert_eq!(done_percent(part, whole), float, "{part}/{whole}");
    }
    assert_eq!(done_percent(29, 100), 28);
    assert_eq!(done_percent(0, 0), 0);
    assert_eq!(done_percent(5, 0), usize::MAX);
}

fn update(id: &str, status: MusicDownloadStatus) -> Option<DownloadManagerMessage> {
    Some(DownloadManagerMessage::VideoStatusUpdate(
        id.to_string(),
        status,
    ))
}

#[test]
fn chunks_add_up_to_a_complete_download() {
    let mut d = ChunkedDownload::new();
    assert_eq!(
        d.download_with_rusty_ytdl("abc", ChunkStep::Resolved),
        (
            update("abc", MusicDownloadStatus::Downloading(0)),
            ChunkWanted::Stream
        )
    );
    assert_eq!(
        d.download_with_rusty_ytdl("abc", ChunkStep::Opened { length: 300 }),
        (None, ChunkWanted::CreateFile)
    );
    assert_eq!(
        d.download_with_rusty_ytdl("abc", ChunkStep::Chunk { len: 87 }),
        (
            update("abc", MusicDownloadStatus::Downloading(28)),
            ChunkWanted::WriteChunk
        )
    );
    assert_eq!(
        d.download_with_rusty_ytdl("abc", ChunkStep::Chunk { len: 213 }),
        (
            update("abc", MusicDownloadStatus::Downloading(100)),
            ChunkWanted::WriteChunk
        )
    );
    assert_eq!(
        d.download_with_rusty_ytdl("abc", ChunkStep::EndOfStream),
        (None, ChunkWanted::Flush)
    );
    assert_eq!(
        d.download_with_rusty_ytdl("abc", ChunkStep::Flushed),
        (
            update("abc", MusicDownloadStatus::Downloading(100)),
            ChunkWanted::Finished(Ok(()))
        )
    );
}

#[test]
fn incomplete_downloads_are_removed() {
    let mut d = ChunkedDownload { total: 10, length: 1024 };
    assert_eq!(
        d.download_with_rusty_ytdl("abc", ChunkStep::Flushed),
        (None, ChunkWanted::RemoveFile)
    );
    let (report, wanted) = d.download_with_rusty_ytdl("abc", ChunkStep::Removed);
    assert_eq!(report, None);
    match wanted {
        ChunkWanted::Finished(Err(e)) => {
            let text = "Download Error: Downloaded file is not the same size as the content length (10/1024)";
            assert_eq!(e, DownloadError::RustyYtdl(text.to_string()));
            assert_eq!(e.message(), format!("rusty_ytdl error: {text}"));
        }
        other => panic!("{other:?}"),
    }
    let mut nothing = ChunkedDownload { total: 0, length: 0 };
    assert_eq!(
        nothing.download_with_rusty_ytdl("abc", ChunkStep::Flushed).1,
        ChunkWanted::RemoveFile
    );
    assert_eq!(
        d.download_with_rusty_ytdl("abc", ChunkStep::FileFailed("disk full".to_string()))
            .1,
        ChunkWanted::Finished(Err(DownloadError::RustyYtdl(
            rusty_ytdl::VideoError::DownloadError("disk full".to_string()).to_string()
        )))
    );
    let broken = rusty_ytdl::VideoError::VideoNotFound.to_string();
    assert_eq!(
        d.download_with_rusty_ytdl("abc", ChunkStep::VideoFailed(broken.clone())),
        (None, ChunkWanted::Finished(Err(DownloadError::RustyYtdl(broken))))
    );
}

#[test]
fn formats_are_filtered_and_ordered() {
    assert!(is_audio_mp4(true, false, "mp4"));
    assert!(!is_audio_mp4(true, true, "mp4"));
    assert!(!is_audio_mp4(false, false, "mp4"));
    assert!(!is_audio_mp4(true, false, "webm"));
    let rates = [None, Some(0), Some(64), Some(u64::MAX)];
    for x in rates {
        for y in rates {
            assert_eq!(compare_audio_bitrate(x, y), x.cmp(&y));
        }
    }
}

#[test]
fn percentages_never_go_back() {
    for whole in [0usize, 1, 3, 7, 97, 102400, 9_999_999, usize::MAX] {
        let mut last = 0;
        for part in 0..5000usize {
            let p = done_percent(part, whole);
            assert!(last <= p, "{part}/{whole}");
            last = p;
        }
        if whole > 0 {
            assert_eq!(done_percent(whole, whole), 100);
        }
    }
    let mut last = 0;
    for thousandths in 0..120_000usize {
        let line = format!(" {}.{:03}% ", thousandths / 1000, thousandths % 1000);
        let p = parse_progress_percent(&line).unwrap();
        assert!(last <= p, "{line}");
        assert_eq!(parse_progress_percent(line.trim()), Some(p));
        last = p;
    }
}

#[test]
fn whole_percentages_are_read_as_written() {
    for n in 0..1000usize {
        assert_eq!(parse_progress_percent(&format!("{n}%")), Some(n.min(100)));
    }
}

#[test]
fn tracks_are_looked_for_by_id() {
    for text in ["", "abc", " short ", "elevenchar!", "twelve-chars"] {
        let mut d = ChunkedDownload::new();
        let (video, report, wanted) = d.find_video(text);
        assert!(video.is_none());
        assert_eq!(report, None);
        assert_eq!(
            wanted,
            ChunkWanted::Finished(Err(DownloadError::RustyYtdl(
                "The video not found".to_string()
            )))
        );
    }
    let mut d = ChunkedDownload::new();
    let (video, report, wanted) = d.find_video("aB3-_567890");
    assert_eq!(video.map(|v| v.get_video_id()), Some("aB3-_567890".to_string()));
    assert_eq!(
        report,
        update("aB3-_567890", MusicDownloadStatus::Downloading(0))
    );
    assert_eq!(wanted, ChunkWanted::Stream);

    // White space around an id stays part of it; an address may hold an id.
    let (video, _, _) = d.find_video(" aB3-_567890 ");
    assert_eq!(
        video.map(|v| v.get_video_id()),
        Some(" aB3-_567890 ".to_string())
    );
    let (video, report, _) = d.find_video("https://www.youtube.com/watch?v=aB3-_567890");
    assert_eq!(video.map(|v| v.get_video_id()), Some("aB3-_567890".to_string()));
    assert_eq!(
        report,
        update(
            "https://www.youtube.com/watch?v=aB3-_567890",
            MusicDownloadStatus::Downloading(0)
        )
    );
    let (video, report, wanted) = d.find_video("https://www.youtube.com/");
    assert!(video.is_none());
    assert_eq!(report, None);
    assert_eq!(
        wanted,
        ChunkWanted::Finished(Err(DownloadError::RustyYtdl(
            "The video not found".to_string()
        )))
    );
}

#[test]
fn outcome_of_the_search_is_followed() {
    let mut d = ChunkedDownload { total: 3, length: 9 };
    let video = rusty_ytdl::Video::new("aB3-_567890").unwrap();
    let (found, report, wanted) = d.search_done("xyz", Ok(video));
    assert_eq!(found.map(|v| v.get_video_id()), Some("aB3-_567890".to_string()));
    assert_eq!(report, update("xyz", MusicDownloadStatus::Downloading(0)));
    assert_eq!(wanted, ChunkWanted::Stream);
    let (found, report, wanted) = d.search_done("xyz", Err("builder error".to_string()));
    assert!(found.is_none());
    assert_eq!(report, None);
    assert_eq!(
        wanted,
        ChunkWanted::Finished(Err(DownloadError::RustyYtdl("builder error".to_string())))
    );
    assert_eq!(d, ChunkedDownload { total: 3, length: 9 });
}
