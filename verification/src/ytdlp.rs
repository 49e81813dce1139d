//! Downloads with the `yt-dlp` program: how it is called and how its output is
//! read.
//!
//! [`download_with_ytdlp`] takes what the run of the program has shown, and
//! returns what is to be reported and done next. A download begins with
//! [`YtDlpStep::Start`] and is over when [`YtDlpWanted::Finished`] is returned.
//! The error output of the program is collected meanwhile, line by line, with
//! [`keep_stderr_line`].

use vstd::prelude::*;
use vstd::string::StringExecFns;
use vstd::utf8::encode_utf8;

use crate::download::{
    failure_view, message_view, status_update, DownloadError, DownloadErrorView,
    DownloadManagerMessage, StatusUpdate,
};
use crate::music_download_status::MusicDownloadStatus;
use crate::progress::{lemma_percent_limit, parse_progress_percent, progress_percent};
use crate::text::{text_views, trim, trimmed};

verus! {

/// Once this many bytes of error output are kept, the rest is dropped.
pub const STDERR_LIMIT: usize = 8192;

/// The address of a track.
pub open spec fn url_of(video_id: Seq<char>) -> Seq<char> {
    "https://www.youtube.com/watch?v="@ + video_id
}

/// The address of a track.
pub fn video_url(video_id: &str) -> (s: String)
    ensures
        s@ == url_of(video_id@),
{
    let mut s = "https://www.youtube.com/watch?v=".to_owned();
    s.append(video_id);
    s
}

/// The arguments of `yt-dlp` for downloading a track to a file.
pub open spec fn arguments_for(video_id: Seq<char>, output_path: Seq<char>) -> Seq<Seq<char>> {
    seq![
        "--no-playlist"@,
        "-f"@,
        "bestaudio[ext=m4a]/bestaudio[ext=mp4]/bestaudio"@,
        "--merge-output-format"@,
        "mp4"@,
        "-o"@,
        output_path,
        "--quiet"@,
        "--progress"@,
        "--newline"@,
        "--progress-template"@,
        "download:%(progress._percent_str)s"@,
        url_of(video_id),
    ]
}

/// The arguments of `yt-dlp` for downloading a track to a file. The percentage
/// is asked for as one line per update; `--progress` is needed since quiet mode
/// suppresses the template otherwise.
pub fn arguments(video_id: &str, output_path: &str) -> (r: Vec<String>)
    ensures
        text_views(r@) == arguments_for(video_id@, output_path@),
{
    let mut r: Vec<String> = Vec::new();
    r.push("--no-playlist".to_owned());
    r.push("-f".to_owned());
    r.push("bestaudio[ext=m4a]/bestaudio[ext=mp4]/bestaudio".to_owned());
    r.push("--merge-output-format".to_owned());
    r.push("mp4".to_owned());
    r.push("-o".to_owned());
    r.push(output_path.to_owned());
    r.push("--quiet".to_owned());
    r.push("--progress".to_owned());
    r.push("--newline".to_owned());
    r.push("--progress-template".to_owned());
    r.push("download:%(progress._percent_str)s".to_owned());
    r.push(video_url(video_id));
    assert(text_views(r@) =~= arguments_for(video_id@, output_path@));
    r
}

/// The error output that is kept after one more line: the line is added without
/// the white space around it, unless the limit was reached before.
pub open spec fn stderr_with(kept: Seq<char>, line: Seq<char>) -> Seq<char> {
    if encode_utf8(kept).len() < STDERR_LIMIT {
        (kept + trimmed(line)).push('\n')
    } else {
        kept
    }
}

/// The error output that is kept of some lines.
pub open spec fn stderr_of(lines: Seq<Seq<char>>) -> Seq<char>
    decreases lines.len(),
{
    if lines.len() == 0 {
        seq![]
    } else {
        stderr_with(stderr_of(lines.drop_last()), lines.last())
    }
}

/// Adds a line of error output to what is kept.
pub fn keep_stderr_line(kept: &mut String, line: &str)
    ensures
        final(kept)@ == stderr_with(old(kept)@, line@),
{
    if kept.as_str().as_bytes().len() < STDERR_LIMIT {
        kept.append(trim(line));
        kept.push('\n');
    }
}

/// What a run of the program has shown.
#[derive(Debug, PartialEq, Eq)]
pub enum YtDlpStep {
    /// A download begins.
    Start,
    /// The program has printed a line.
    Line(String),
    /// The program prints no more lines.
    EndOfOutput,
    /// The program has ended, with this error output.
    Exited { success: bool, stderr: String },
    /// The program could not be run, read from or waited for.
    IoFailed(String),
}

pub ghost enum YtDlpStepView {
    Start,
    Line(Seq<char>),
    EndOfOutput,
    Exited { success: bool, stderr: Seq<char> },
    IoFailed(Seq<char>),
}

impl View for YtDlpStep {
    type V = YtDlpStepView;

    open spec fn view(&self) -> YtDlpStepView {
        match self {
            YtDlpStep::Start => YtDlpStepView::Start,
            YtDlpStep::Line(line) => YtDlpStepView::Line(line@),
            YtDlpStep::EndOfOutput => YtDlpStepView::EndOfOutput,
            YtDlpStep::Exited { success, stderr } => YtDlpStepView::Exited {
                success: *success,
                stderr: stderr@,
            },
            YtDlpStep::IoFailed(e) => YtDlpStepView::IoFailed(e@),
        }
    }
}

/// What is to be done next.
#[derive(Debug, PartialEq, Eq)]
pub enum YtDlpWanted {
    /// Run the program with these arguments, and read its first line.
    Run(Vec<String>),
    /// Read the next line.
    NextLine,
    /// Wait for the program to end.
    Exit,
    /// Nothing: the download is over.
    Finished(Result<(), DownloadError>),
}

pub ghost enum YtDlpWantedView {
    Run(Seq<Seq<char>>),
    NextLine,
    Exit,
    Finished(Option<DownloadErrorView>),
}

impl View for YtDlpWanted {
    type V = YtDlpWantedView;

    open spec fn view(&self) -> YtDlpWantedView {
        match self {
            YtDlpWanted::Run(arguments) => YtDlpWantedView::Run(text_views(arguments@)),
            YtDlpWanted::NextLine => YtDlpWantedView::NextLine,
            YtDlpWanted::Exit => YtDlpWantedView::Exit,
            YtDlpWanted::Finished(r) => YtDlpWantedView::Finished(failure_view(*r)),
        }
    }
}

/// The report that follows from a step: a spinner at the beginning, then the
/// percentage of each line that holds one.
pub open spec fn ytdlp_report(video_id: Seq<char>, step: YtDlpStepView) -> Option<StatusUpdate> {
    match step {
        YtDlpStepView::Start => Some(
            StatusUpdate { video_id, status: MusicDownloadStatus::Spinner(0) },
        ),
        YtDlpStepView::Line(line) => match progress_percent(line) {
            Some(p) => Some(
                StatusUpdate { video_id, status: MusicDownloadStatus::Downloading(p as usize) },
            ),
            None => None,
        },
        _ => None,
    }
}

/// What is to be done after a step. What was printed to the error output is the
/// reason of a failure.
pub open spec fn ytdlp_next(
    video_id: Seq<char>,
    output_path: Seq<char>,
    step: YtDlpStepView,
) -> YtDlpWantedView {
    match step {
        YtDlpStepView::Start => YtDlpWantedView::Run(arguments_for(video_id, output_path)),
        YtDlpStepView::Line(_) => YtDlpWantedView::NextLine,
        YtDlpStepView::EndOfOutput => YtDlpWantedView::Exit,
        YtDlpStepView::Exited { success, stderr } => YtDlpWantedView::Finished(
            if success {
                None
            } else {
                Some(DownloadErrorView::YtDlpFailed(stderr))
            },
        ),
        YtDlpStepView::IoFailed(e) => YtDlpWantedView::Finished(
            Some(DownloadErrorView::IoError(e)),
        ),
    }
}

/// Does the part of a download that follows from `step`.
pub fn download_with_ytdlp(video_id: &str, output_path: &str, step: YtDlpStep) -> (r: (
    Option<DownloadManagerMessage>,
    YtDlpWanted,
))
    ensures
        message_view(r.0) == ytdlp_report(video_id@, step@),
        r.1@ == ytdlp_next(video_id@, output_path@, step@),
{
    match step {
        YtDlpStep::Start => (
            Some(status_update(video_id, MusicDownloadStatus::Spinner(0))),
            YtDlpWanted::Run(arguments(video_id, output_path)),
        ),
        YtDlpStep::Line(line) => {
            let report = match parse_progress_percent(line.as_str()) {
                Some(percent) => Some(
                    status_update(video_id, MusicDownloadStatus::Downloading(percent)),
                ),
                None => None,
            };
            (report, YtDlpWanted::NextLine)
        },
        YtDlpStep::EndOfOutput => (None, YtDlpWanted::Exit),
        YtDlpStep::Exited { success, stderr } => {
            if success {
                (None, YtDlpWanted::Finished(Ok(())))
            } else {
                (None, YtDlpWanted::Finished(Err(DownloadError::YtDlpFailed(stderr))))
            }
        },
        YtDlpStep::IoFailed(e) => (None, YtDlpWanted::Finished(Err(DownloadError::IoError(e)))),
    }
}

/// The reported percentages are percentages.
pub proof fn law_reported_percentage(video_id: Seq<char>, line: Seq<char>)
    ensures
        ytdlp_report(video_id, YtDlpStepView::Line(line)) matches Some(u) ==> u.video_id == video_id
            && (u.status matches MusicDownloadStatus::Downloading(p) && p <= 100),
{
    lemma_percent_limit(line);
}

/// The kept error output only grows at its end.
pub proof fn law_stderr_grows(lines: Seq<Seq<char>>, more: Seq<Seq<char>>)
    ensures
        stderr_of(lines).is_prefix_of(stderr_of(lines + more)),
    decreases more.len(),
{
    if more.len() == 0 {
        assert(lines + more =~= lines);
    } else {
        law_stderr_grows(lines, more.drop_last());
        assert((lines + more).drop_last() =~= lines + more.drop_last());
        let a = stderr_of(lines);
        let b = stderr_of(lines + more.drop_last());
        let c = stderr_of(lines + more);
        assert(c =~= b || c =~= (b + trimmed(more.last())).push('\n'));
        assert(b =~= c.take(b.len() as int));
        assert(a =~= b.take(a.len() as int));
        assert(a =~= c.take(a.len() as int));
    }
}

/// Once the limit is reached, further lines change nothing: however verbose a
/// failure is, what is kept of it stays bounded.
pub proof fn law_stderr_stops(lines: Seq<Seq<char>>, more: Seq<Seq<char>>)
    requires
        encode_utf8(stderr_of(lines)).len() >= STDERR_LIMIT,
    ensures
        stderr_of(lines + more) == stderr_of(lines),
    decreases more.len(),
{
    if more.len() == 0 {
        assert(lines + more =~= lines);
    } else {
        law_stderr_stops(lines, more.drop_last());
        assert((lines + more).drop_last() =~= lines + more.drop_last());
    }
}

/// The program gets the one track and the one file asked for: its address is the
/// last argument and the file follows `-o`. The other arguments are always the
/// same.
pub proof fn law_arguments(video_id: Seq<char>, output_path: Seq<char>)
    ensures
        ({
            let a = arguments_for(video_id, output_path);
            &&& a.len() == 13
            &&& a[12] == "https://www.youtube.com/watch?v="@ + video_id
            &&& a[5] == "-o"@
            &&& a[6] == output_path
            &&& a.take(5) == seq![
                "--no-playlist"@,
                "-f"@,
                "bestaudio[ext=m4a]/bestaudio[ext=mp4]/bestaudio"@,
                "--merge-output-format"@,
                "mp4"@,
            ]
            &&& a.subrange(7, 12) == seq![
                "--quiet"@,
                "--progress"@,
                "--newline"@,
                "--progress-template"@,
                "download:%(progress._percent_str)s"@,
            ]
        }),
{
    let a = arguments_for(video_id, output_path);
    assert(a.take(5) =~= seq![
        "--no-playlist"@,
        "-f"@,
        "bestaudio[ext=m4a]/bestaudio[ext=mp4]/bestaudio"@,
        "--merge-output-format"@,
        "mp4"@,
    ]);
    assert(a.subrange(7, 12) =~= seq![
        "--quiet"@,
        "--progress"@,
        "--newline"@,
        "--progress-template"@,
        "download:%(progress._percent_str)s"@,
    ]);
}

/// A spinner is reported at the beginning, then the percentage of each line that
/// holds one and nothing for any other line, and nothing at the end. All is
/// reported of the track that is downloaded.
pub proof fn law_reports_of_a_run(video_id: Seq<char>, step: YtDlpStepView)
    ensures
        ({
            let r = ytdlp_report(video_id, step);
            &&& r matches Some(u) ==> u.video_id == video_id
            &&& step is Start ==> r is Some && r->0.status == MusicDownloadStatus::Spinner(0)
            &&& step matches YtDlpStepView::Line(line) ==> {
                &&& r is Some <==> progress_percent(line) is Some
                &&& r matches Some(u) ==> (u.status matches MusicDownloadStatus::Downloading(p) && p
                    == progress_percent(line)->0)
            }
            &&& !(step is Start) && !(step is Line) ==> r is None
        }),
{
    if let YtDlpStepView::Line(line) = step {
        lemma_percent_limit(line);
    }
}

/// A download succeeds exactly when the program does. A failure of the program is
/// told in the words of its error output, and a failure to run it in those of the
/// system; it ends in no other way.
pub proof fn law_end_of_a_run(
    video_id: Seq<char>,
    output_path: Seq<char>,
    step: YtDlpStepView,
)
    ensures
        ({
            let w = ytdlp_next(video_id, output_path, step);
            &&& w is Finished <==> step is Exited || step is IoFailed
            &&& w == YtDlpWantedView::Finished(None) <==> (step matches YtDlpStepView::Exited {
                success,
                ..
            } && success)
            &&& step matches YtDlpStepView::Exited { success, stderr } ==> (!success ==> w
                == YtDlpWantedView::Finished(Some(DownloadErrorView::YtDlpFailed(stderr))))
            &&& step matches YtDlpStepView::IoFailed(e) ==> w == YtDlpWantedView::Finished(
                Some(DownloadErrorView::IoError(e)),
            )
            &&& step is Start ==> w == YtDlpWantedView::Run(arguments_for(video_id, output_path))
            &&& step is Line ==> w is NextLine
            &&& step is EndOfOutput ==> w is Exit
        }),
{
}

/// While fewer than 8192 bytes are kept, a line of error output is kept whole but
/// for the white space around it, on a line of its own; from then on none is.
pub proof fn law_kept_line(kept: Seq<char>, line: Seq<char>)
    ensures
        encode_utf8(kept).len() < 8192 ==> stderr_with(kept, line) == kept + trimmed(line) + seq![
            '\n',
        ],
        encode_utf8(kept).len() >= 8192 ==> stderr_with(kept, line) == kept,
{
    assert((kept + trimmed(line)).push('\n') =~= kept + trimmed(line) + seq!['\n']);
}

} // verus!
