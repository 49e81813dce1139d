//! The download status of a track and how the playlist shows it.

use vstd::prelude::*;

use crate::text::{digit, digit_char};

verus! {

/// Spinner frames for the phase before a download has a percentage: the
/// Braille patterns of a rotating dot, standard Unicode.
pub const SPINNER_FRAMES: [char; 10] = [
    '⠋',
    '⠙',
    '⠹',
    '⠸',
    '⠼',
    '⠴',
    '⠦',
    '⠧',
    '⠇',
    '⠏',
];

#[derive(PartialEq, Eq, Debug, Clone, Copy, Structural)]
pub enum MusicDownloadStatus {
    NotDownloaded,
    Downloaded,
    /// Actively downloading with a known percentage.
    Downloading(usize),
    /// The download is still being negotiated; no bytes counted yet. The
    /// number is a frame index into [`SPINNER_FRAMES`].
    Spinner(usize),
    DownloadFailed,
}

/// The download column: an arrow and three characters in brackets.
pub open spec fn download_block(a: char, b: char, c: char) -> Seq<char> {
    seq!['⭳', ' ', '[', a, b, c, ']']
}

/// How a status is shown; `playing` says whether the track is the current one
/// and, if so, whether it plays or is paused.
pub open spec fn shown(status: MusicDownloadStatus, playing: Option<bool>) -> Seq<char> {
    match status {
        MusicDownloadStatus::NotDownloaded => match playing {
            Some(true) => seq!['▶'],
            Some(false) => seq!['⏸'],
            None => seq![' '],
        },
        MusicDownloadStatus::Downloaded => seq![' '],
        MusicDownloadStatus::Downloading(progress) => if progress >= 100 {
            download_block(' ', '✓', ' ')
        } else {
            download_block(
                digit_char(progress as nat / 10),
                digit_char(progress as nat % 10),
                '%',
            )
        },
        MusicDownloadStatus::Spinner(frame) => download_block(
            ' ',
            SPINNER_FRAMES@[frame as int % 10],
            ' ',
        ),
        MusicDownloadStatus::DownloadFailed => seq!['⚠'],
    }
}

fn single(c: char) -> (s: String)
    ensures
        s@ == seq![c],
{
    let mut s = String::new();
    s.push(c);
    assert(s@ =~= seq![c]);
    s
}

fn block(a: char, b: char, c: char) -> (s: String)
    ensures
        s@ == download_block(a, b, c),
{
    let mut s = String::new();
    s.push('⭳');
    s.push(' ');
    s.push('[');
    s.push(a);
    s.push(b);
    s.push(c);
    s.push(']');
    assert(s@ =~= download_block(a, b, c));
    s
}

impl MusicDownloadStatus {
    /// How the playlist shows this status. The percentage and the spinner take
    /// the same width, so the column never shifts during a download.
    pub fn character(&self, playing: Option<bool>) -> (s: String)
        ensures
            s@ == shown(*self, playing),
    {
        match self {
            Self::NotDownloaded => match playing {
                Some(e) => if e {
                    single('▶')
                } else {
                    single('⏸')
                },
                None => single(' '),
            },
            Self::Downloaded => single(' '),
            Self::Downloading(progress) => {
                if *progress >= 100 {
                    block(' ', '✓', ' ')
                } else {
                    block(digit((*progress / 10) as u8), digit((*progress % 10) as u8), '%')
                }
            },
            Self::Spinner(frame) => {
                let frames = SPINNER_FRAMES;
                block(' ', frames[*frame % 10], ' ')
            },
            Self::DownloadFailed => single('⚠'),
        }
    }

    /// The status one tick later: a spinner turns by one frame, anything else
    /// stays.
    pub fn tick(self) -> (r: Self)
        ensures
            r == ticked(self),
    {
        match self {
            Self::Spinner(frame) => Self::Spinner(frame.wrapping_add(1)),
            other => other,
        }
    }
}

/// The status one tick later: a spinner turns by one frame, anything else
/// stays.
pub open spec fn ticked(status: MusicDownloadStatus) -> MusicDownloadStatus {
    match status {
        MusicDownloadStatus::Spinner(frame) => MusicDownloadStatus::Spinner(
            if frame == usize::MAX {
                0
            } else {
                (frame + 1) as usize
            },
        ),
        other => other,
    }
}

/// The download column never shifts: a percentage, the check mark at 100 % and
/// every spinner frame take seven characters, and any other status takes one.
pub proof fn law_fixed_width(status: MusicDownloadStatus, playing: Option<bool>)
    ensures
        (status is Downloading || status is Spinner) ==> shown(status, playing).len() == 7,
        !(status is Downloading || status is Spinner) ==> shown(status, playing).len() == 1,
{
}

/// The spinner visibly moves: every tick shows another frame.
pub proof fn law_spinner_moves(frame: usize, playing: Option<bool>)
    ensures
        shown(ticked(MusicDownloadStatus::Spinner(frame)), playing) != shown(
            MusicDownloadStatus::Spinner(frame),
            playing,
        ),
{
    let a = shown(ticked(MusicDownloadStatus::Spinner(frame)), playing);
    let b = shown(MusicDownloadStatus::Spinner(frame), playing);
    assert(usize::MAX == 0xffff_ffff || usize::MAX == 0xffff_ffff_ffff_ffff);
    assert(a[4] != b[4]);
}

/// The spinner turns in a circle of ten frames.
pub proof fn law_spinner_turns(frame: usize, playing: Option<bool>)
    requires
        frame <= usize::MAX - 10,
    ensures
        shown(MusicDownloadStatus::Spinner((frame + 10) as usize), playing) == shown(
            MusicDownloadStatus::Spinner(frame),
            playing,
        ),
{
}

/// A percentage below 100 can be read off: two digits that make it up, and a
/// percent sign, in brackets behind an arrow.
pub proof fn law_percentage_can_be_read(progress: usize, playing: Option<bool>)
    requires
        progress < 100,
    ensures
        ({
            let s = shown(MusicDownloadStatus::Downloading(progress), playing);
            &&& s.len() == 7
            &&& s[0] == '⭳' && s[1] == ' ' && s[2] == '[' && s[5] == '%' && s[6] == ']'
            &&& '0' <= s[3] <= '9' && '0' <= s[4] <= '9'
            &&& (s[3] as int - '0' as int) * 10 + (s[4] as int - '0' as int) == progress
        }),
{
}

/// From 100 on there is a check mark, and a spinner shows the frame of its number,
/// both in the middle of the brackets.
pub proof fn law_middle_of_the_brackets(n: usize, playing: Option<bool>)
    ensures
        n >= 100 ==> shown(MusicDownloadStatus::Downloading(n), playing) == seq![
            '⭳',
            ' ',
            '[',
            ' ',
            '✓',
            ' ',
            ']',
        ],
        shown(MusicDownloadStatus::Spinner(n), playing) == seq![
            '⭳',
            ' ',
            '[',
            ' ',
            SPINNER_FRAMES@[n as int % 10],
            ' ',
            ']',
        ],
{
}

/// Only a track that is not downloaded shows whether it plays; one that is
/// downloaded shows nothing, and a failed one a warning.
pub proof fn law_other_statuses(playing: Option<bool>)
    ensures
        shown(MusicDownloadStatus::NotDownloaded, Some(true)) == seq!['▶'],
        shown(MusicDownloadStatus::NotDownloaded, Some(false)) == seq!['⏸'],
        shown(MusicDownloadStatus::NotDownloaded, None) == seq![' '],
        shown(MusicDownloadStatus::Downloaded, playing) == seq![' '],
        shown(MusicDownloadStatus::DownloadFailed, playing) == seq!['⚠'],
{
}

/// The ten frames of the spinner are all different.
pub proof fn law_frames_differ(i: int, j: int)
    requires
        0 <= i < j < 10,
    ensures
        SPINNER_FRAMES@.len() == 10,
        SPINNER_FRAMES@[i] != SPINNER_FRAMES@[j],
{
}

/// A tick moves a spinner by one frame, back to the first at the end of the range,
/// and changes nothing else.
pub proof fn law_tick(status: MusicDownloadStatus)
    ensures
        status matches MusicDownloadStatus::Spinner(frame) ==> ticked(status)
            == MusicDownloadStatus::Spinner(
            if frame < usize::MAX {
                (frame + 1) as usize
            } else {
                0
            },
        ),
        !(status is Spinner) ==> ticked(status) == status,
{
}

} // verus!
