# ytermusic

The verified core of a terminal music player: what the player does with its
playlist, its downloads and its audio device, without doing any of it.

The library in `src/` decides and computes; its functions are proved against
their contracts with [Verus](https://github.com/verus-lang/verus). Three contracts
are trusted instead, each on a call into other code: `new_video` and
`video_download_error` in `chunked_download`, which call `rusty_ytdl`, and the one
of `String::push` in `text`. The names in `chunked_download` for what `rusty_ytdl`
finds and keeps, and its type `Video`, are taken as they are too.

The library does no input or output. Where a course of action alternates with outside work, the library has a
function that takes what the outside work has found out and returns what is to
be done next.

| module | what it holds |
| --- | --- |
| `player_state`, `update` | the playlist, the position in it, one tick of the player |
| `rebuild`, `recovery` | recovery of the audio device, and how often it is tried |
| `player_laws` | what holds of the player whatever happens to it |
| `player_command`, `play_error` | what the player orders, and how playing fails |
| `download_manager`, `download` | the course of a download and its reports |
| `ytdlp`, `progress` | downloads with `yt-dlp`, and its progress lines |
| `chunked_download`, `done_percent` | downloads with `rusty_ytdl`, and their progress |
| `music_download_status`, `status_table` | the status of each track and how it is shown |
| `double` | rounding to double precision, over exact rationals |
| `text`, `clock`, `video` | text, time and tracks |

Percentages are those of double-precision arithmetic, computed with integers.

`app/` is the ordinary Rust around the library: it runs `yt-dlp`, talks to the
network, keeps the files of the cache, and opens the audio device on a thread of
its own. `tests/` runs the library on concrete values.
