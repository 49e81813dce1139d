//! The state of the player: the playlist, the position in it, the downloads,
//! and the recovery of the audio device.

use vstd::prelude::*;

use crate::clock::{Duration, Instant};
use crate::music_download_status::MusicDownloadStatus;
use crate::recovery::RecoveryPolicy;
use crate::status_table::{lookup, StatusTable};
use crate::text::text_views;
use crate::video::{VideoView, YoutubeMusicVideoRef};

verus! {

/// How many tracks are handed to the downloader at once.
pub const DOWNLOAD_LIST_LIMIT: usize = 12;

/// Context captured when a rebuild is requested, used to queue the current
/// track again at the same position once the rebuilt stream lands.
#[derive(Debug, PartialEq, Eq)]
pub struct RebuildContext {
    /// Where the (old) sink was when the device died.
    pub position: Duration,
    /// The track that was current at request time.
    pub video: Option<YoutubeMusicVideoRef>,
    /// Whether that track was already downloaded at request time.
    pub downloaded: bool,
    /// Why the rebuild was requested.
    pub reason: String,
}

pub ghost struct RebuildContextView {
    pub position: Duration,
    pub video: Option<VideoView>,
    pub downloaded: bool,
    pub reason: Seq<char>,
}

impl View for RebuildContext {
    type V = RebuildContextView;

    open spec fn view(&self) -> RebuildContextView {
        RebuildContextView {
            position: self.position,
            video: video_view(self.video),
            downloaded: self.downloaded,
            reason: self.reason@,
        }
    }
}

pub open spec fn video_view(v: Option<YoutubeMusicVideoRef>) -> Option<VideoView> {
    match v {
        Some(v) => Some(v@),
        None => None,
    }
}

pub open spec fn video_views(list: Seq<YoutubeMusicVideoRef>) -> Seq<VideoView> {
    list.map_values(|v: YoutubeMusicVideoRef| v@)
}

pub open spec fn context_view(c: Option<RebuildContext>) -> Option<RebuildContextView> {
    match c {
        Some(c) => Some(c@),
        None => None,
    }
}

pub struct PlayerState {
    pub list: Vec<YoutubeMusicVideoRef>,
    pub current: usize,
    /// The track that the sink plays.
    pub rtcurrent: Option<YoutubeMusicVideoRef>,
    pub music_status: StatusTable,
    pub recovery: RecoveryPolicy,
    /// True while a rebuild worker is running or its result is pending.
    pub rebuild_in_flight: bool,
    /// When the rebuild in flight was started.
    pub rebuild_started_at: Option<Instant>,
    /// Track and position captured at request time, applied once the rebuilt
    /// stream lands.
    pub pending_requeue: Option<RebuildContext>,
    /// The ids that were last handed to the downloader.
    pub last_download_list: Vec<String>,
}

pub ghost struct PlayerView {
    pub list: Seq<VideoView>,
    pub current: usize,
    pub rtcurrent: Option<VideoView>,
    pub music_status: Map<Seq<char>, MusicDownloadStatus>,
    pub recovery: RecoveryPolicy,
    pub rebuild_in_flight: bool,
    pub rebuild_started_at: Option<Instant>,
    pub pending_requeue: Option<RebuildContextView>,
    pub last_download_list: Seq<Seq<char>>,
}

impl View for PlayerState {
    type V = PlayerView;

    open spec fn view(&self) -> PlayerView {
        PlayerView {
            list: video_views(self.list@),
            current: self.current,
            rtcurrent: video_view(self.rtcurrent),
            music_status: self.music_status@,
            recovery: self.recovery,
            rebuild_in_flight: self.rebuild_in_flight,
            rebuild_started_at: self.rebuild_started_at,
            pending_requeue: context_view(self.pending_requeue),
            last_download_list: text_views(self.last_download_list@),
        }
    }
}

/// `i` moved by `n`, within the range of the type.
pub open spec fn moved(i: usize, n: isize) -> usize {
    if i + n < 0 {
        0
    } else if i + n > usize::MAX {
        usize::MAX
    } else {
        (i + n) as usize
    }
}

impl PlayerView {
    /// A player with nothing to play.
    pub open spec fn empty() -> Self {
        PlayerView {
            list: Seq::empty(),
            current: 0,
            rtcurrent: None,
            music_status: Map::empty(),
            recovery: RecoveryPolicy::initial(),
            rebuild_in_flight: false,
            rebuild_started_at: None,
            pending_requeue: None,
            last_download_list: Seq::empty(),
        }
    }

    /// The track at a place in the playlist.
    pub open spec fn at(self, i: int) -> Option<VideoView> {
        if 0 <= i < self.list.len() {
            Some(self.list[i])
        } else {
            None
        }
    }

    pub open spec fn current_video(self) -> Option<VideoView> {
        self.at(self.current as int)
    }

    /// Whether the track at a place in the playlist has a status.
    pub open spec fn has_status(self, i: int, status: MusicDownloadStatus) -> bool {
        self.at(i) matches Some(v) && lookup(self.music_status, v.video_id) == Some(status)
    }

    pub open spec fn current_failed(self) -> bool {
        self.has_status(self.current as int, MusicDownloadStatus::DownloadFailed)
    }

    pub open spec fn current_downloaded(self) -> bool {
        self.has_status(self.current as int, MusicDownloadStatus::Downloaded)
    }

    pub open spec fn moved_by(self, n: isize) -> Self {
        PlayerView { current: moved(self.current, n), ..self }
    }

    /// The position does not point behind the end of the playlist.
    pub open spec fn clamped(self) -> Self {
        PlayerView {
            current: if self.current > self.list.len() {
                self.list.len() as usize
            } else {
                self.current
            },
            ..self
        }
    }

    /// The first place from `i` on whose track did not fail to download.
    pub open spec fn first_not_failed(self, i: int) -> int
        decreases self.list.len() - i,
    {
        if self.has_status(i, MusicDownloadStatus::DownloadFailed) {
            self.first_not_failed(i + 1)
        } else {
            i
        }
    }

    /// The position moved past tracks that failed to download.
    pub open spec fn past_failed(self) -> Self {
        PlayerView { current: self.first_not_failed(self.current as int) as usize, ..self }
    }

    /// The playlist from the current track to the end, then back from the
    /// track before it to the start.
    pub open spec fn download_order(self) -> Seq<VideoView> {
        let c = if self.current <= self.list.len() {
            self.current as int
        } else {
            self.list.len() as int
        };
        self.list.skip(c) + self.list.take(c).reverse()
    }

    /// The tracks to download next: the first ones in the download order that
    /// are not downloaded yet.
    pub open spec fn download_list(self) -> Seq<VideoView> {
        let waiting = self.download_order().filter(
            |v: VideoView|
                lookup(self.music_status, v.video_id) == Some(MusicDownloadStatus::NotDownloaded),
        );
        if waiting.len() > DOWNLOAD_LIST_LIMIT {
            waiting.take(DOWNLOAD_LIST_LIMIT as int)
        } else {
            waiting
        }
    }

    /// The ids of the tracks to download next.
    pub open spec fn download_ids(self) -> Seq<Seq<char>> {
        self.download_list().map_values(|v: VideoView| v.video_id)
    }
}

impl PlayerState {
    /// A player with nothing to play.
    pub fn new() -> (p: Self)
        ensures
            p@ == PlayerView::empty(),
    {
        let p = Self {
            list: Vec::new(),
            current: 0,
            rtcurrent: None,
            music_status: StatusTable::new(),
            recovery: RecoveryPolicy::new(),
            rebuild_in_flight: false,
            rebuild_started_at: None,
            pending_requeue: None,
            last_download_list: Vec::new(),
        };
        assert(p@.list =~= PlayerView::empty().list);
        assert(p@.last_download_list =~= PlayerView::empty().last_download_list);
        p
    }

    /// The current track.
    pub fn current(&self) -> (r: Option<&YoutubeMusicVideoRef>)
        ensures
            match r {
                Some(v) => self.current < self.list.len() && *v == self.list@[self.current as int]
                    && self@.current_video() == Some(v@),
                None => self@.current_video() is None,
            },
    {
        self.relative_current(0)
    }

    /// The track `n` places behind the current one.
    pub fn relative_current(&self, n: isize) -> (r: Option<&YoutubeMusicVideoRef>)
        ensures
            match r {
                Some(v) => moved(self.current, n) < self.list.len() && *v == self.list@[moved(
                    self.current,
                    n,
                ) as int] && self@.at(moved(self.current, n) as int) == Some(v@),
                None => self@.at(moved(self.current, n) as int) is None,
            },
    {
        let i = offset(self.current, n);
        if i < self.list.len() {
            Some(&self.list[i])
        } else {
            None
        }
    }

    /// Moves the position by `n` places.
    pub fn set_relative_current(&mut self, n: isize)
        ensures
            final(self)@ == old(self)@.moved_by(n),
            final(self).list == old(self).list,
    {
        self.current = offset(self.current, n);
    }

    fn current_has_status(&self, status: MusicDownloadStatus) -> (r: bool)
        ensures
            r == self@.has_status(self.current as int, status),
    {
        match self.current() {
            Some(v) => match self.music_status.get(v.video_id.as_str()) {
                Some(s) => s == status,
                None => false,
            },
            None => false,
        }
    }

    pub fn is_current_download_failed(&self) -> (r: bool)
        ensures
            r == self@.current_failed(),
    {
        self.current_has_status(MusicDownloadStatus::DownloadFailed)
    }

    pub fn is_current_downloaded(&self) -> (r: bool)
        ensures
            r == self@.current_downloaded(),
    {
        self.current_has_status(MusicDownloadStatus::Downloaded)
    }

    /// A copy of the current track.
    pub fn current_cloned(&self) -> (r: Option<YoutubeMusicVideoRef>)
        ensures
            video_view(r) == self@.current_video(),
    {
        match self.current() {
            Some(v) => Some(v.clone()),
            None => None,
        }
    }

    /// Moves the position past tracks that failed to download.
    pub fn skip_failed(&mut self)
        ensures
            final(self)@ == old(self)@.past_failed(),
    {
        let ghost before = self@;
        while self.is_current_download_failed()
            invariant
                self@.list == before.list,
                self@.music_status == before.music_status,
                self@ == (PlayerView { current: self.current, ..before }),
                before.first_not_failed(before.current as int) == before.first_not_failed(
                    self.current as int,
                ),
            decreases self.list.len() - self.current,
        {
            assert(before.has_status(self.current as int, MusicDownloadStatus::DownloadFailed));
            assert(self@.list.len() == self.list.len());
            self.set_relative_current(1);
        }
        assert(!before.has_status(self.current as int, MusicDownloadStatus::DownloadFailed));
    }

    /// The tracks to download next.
    pub fn tracks_to_download(&self) -> (r: Vec<YoutubeMusicVideoRef>)
        ensures
            video_views(r@) == self@.download_list(),
    {
        let n: usize = self.list.len();
        let c: usize = if self.current <= n {
            self.current
        } else {
            n
        };
        let mut r: Vec<YoutubeMusicVideoRef> = Vec::new();
        let ghost order = self@.download_order();
        let ghost waits = |v: VideoView|
            lookup(self.music_status@, v.video_id) == Some(MusicDownloadStatus::NotDownloaded);
        let mut i: usize = 0;
        proof {
            assert(self@.list.len() == n);
            assert(order.take(0) =~= Seq::<VideoView>::empty());
            reveal(Seq::filter);
            assert(video_views(r@) =~= order.take(0).filter(waits));
        }
        while i < n && r.len() < DOWNLOAD_LIST_LIMIT
            invariant
                i <= n,
                n == self.list.len(),
                c <= n,
                c == if self.current <= n {
                    self.current
                } else {
                    n
                },
                order == self@.download_order(),
                order.len() == n,
                waits == (|v: VideoView|
                    lookup(self.music_status@, v.video_id) == Some(
                        MusicDownloadStatus::NotDownloaded,
                    )),
                r.len() <= DOWNLOAD_LIST_LIMIT,
                video_views(r@) == order.take(i as int).filter(waits),
            decreases n - i,
        {
            let k: usize = if i < n - c {
                c + i
            } else {
                n - 1 - i
            };
            let v = &self.list[k];
            proof {
                assert(self@.list[k as int] == v@);
                if i < n - c {
                    assert(order[i as int] == self@.list.skip(c as int)[i as int]);
                } else {
                    assert(order[i as int] == self@.list.take(c as int).reverse()[i - (n - c)]);
                }
                assert(order[i as int] == v@);
                assert(order.take(i + 1) =~= order.take(i as int).push(v@));
                assert(order.take(i + 1).drop_last() =~= order.take(i as int));
                reveal(Seq::filter);
            }
            if let Some(s) = self.music_status.get(v.video_id.as_str()) {
                if s == MusicDownloadStatus::NotDownloaded {
                    let ghost before = r@;
                    r.push(v.clone());
                    assert(video_views(r@) =~= video_views(before).push(v@));
                }
            }
            i += 1;
        }
        proof {
            assert(order.take(i as int) + order.skip(i as int) =~= order);
            Seq::filter_distributes_over_add(order.take(i as int), order.skip(i as int), waits);
            let some = order.take(i as int).filter(waits);
            let all = order.filter(waits);
            if i == n {
                assert(order.take(i as int) =~= order);
            } else {
                assert(some.len() == DOWNLOAD_LIST_LIMIT);
                assert(all.take(DOWNLOAD_LIST_LIMIT as int) =~= some);
                assert(all.len() == DOWNLOAD_LIST_LIMIT ==> all =~= some);
            }
        }
        r
    }
}

/// `i` moved by `n`, within the range of the type.
fn offset(i: usize, n: isize) -> (r: usize)
    ensures
        r == moved(i, n),
{
    match i.checked_add_signed(n) {
        Some(r) => r,
        None => if n < 0 {
            0
        } else {
            usize::MAX
        },
    }
}

/// A new player has no tracks, knows of no downloads, has tried no recovery, and
/// has handed nothing to the downloader.
pub proof fn law_new_player()
    ensures
        ({
            let p = PlayerView::empty();
            &&& p.list.len() == 0
            &&& p.current == 0
            &&& p.rtcurrent is None
            &&& p.music_status.dom() == Set::<Seq<char>>::empty()
            &&& p.recovery.last_attempt is None
            &&& p.recovery.consecutive_failures == 0
            &&& !p.rebuild_in_flight
            &&& p.rebuild_started_at is None
            &&& p.pending_requeue is None
            &&& p.last_download_list.len() == 0
        }),
{
}

} // verus!
