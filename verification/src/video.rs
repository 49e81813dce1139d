//! Tracks and where their downloads are kept.

use vstd::prelude::*;
use vstd::string::StringExecFns;

verus! {

/// A track, as the catalogue describes it.
#[derive(Debug, PartialEq, Eq)]
pub struct YoutubeMusicVideoRef {
    pub title: String,
    pub author: String,
    pub album: String,
    pub video_id: String,
    pub duration: String,
}

pub ghost struct VideoView {
    pub title: Seq<char>,
    pub author: Seq<char>,
    pub album: Seq<char>,
    pub video_id: Seq<char>,
    pub duration: Seq<char>,
}

impl View for YoutubeMusicVideoRef {
    type V = VideoView;

    open spec fn view(&self) -> VideoView {
        VideoView {
            title: self.title@,
            author: self.author@,
            album: self.album@,
            video_id: self.video_id@,
            duration: self.duration@,
        }
    }
}

impl Clone for YoutubeMusicVideoRef {
    fn clone(&self) -> (r: Self)
        ensures
            r == *self,
    {
        Self {
            title: self.title.clone(),
            author: self.author.clone(),
            album: self.album.clone(),
            video_id: self.video_id.clone(),
            duration: self.duration.clone(),
        }
    }
}

impl YoutubeMusicVideoRef {
    /// Whether both describe the same track in the same words.
    pub fn same(&self, other: &Self) -> (r: bool)
        ensures
            r == (self@ == other@),
    {
        self.title == other.title && self.author == other.author && self.album == other.album
            && self.video_id == other.video_id && self.duration == other.duration
    }
}

/// Where the audio of a track is kept, relative to the cache directory.
pub open spec fn mp4_path_of(id: Seq<char>) -> Seq<char> {
    "downloads/"@ + id + ".mp4"@
}

/// Where the record of a track is kept, relative to the cache directory.
pub open spec fn json_path_of(id: Seq<char>) -> Seq<char> {
    "downloads/"@ + id + ".json"@
}

/// Where the audio of a track is kept, relative to the cache directory.
pub fn mp4_path(id: &str) -> (p: String)
    ensures
        p@ == mp4_path_of(id@),
{
    let mut p = "downloads/".to_owned();
    p.append(id);
    p.append(".mp4");
    p
}

/// Where the record of a track is kept, relative to the cache directory.
pub fn json_path(id: &str) -> (p: String)
    ensures
        p@ == json_path_of(id@),
{
    let mut p = "downloads/".to_owned();
    p.append(id);
    p.append(".json");
    p
}

/// The two files of a track lie among the downloads, under its id, and differ in
/// their ending.
pub proof fn law_paths(id: Seq<char>)
    ensures
        mp4_path_of(id) == "downloads/"@ + id + ".mp4"@,
        json_path_of(id) == "downloads/"@ + id + ".json"@,
{
}

/// Different tracks have different files, and no audio lies where a record does.
pub proof fn law_paths_differ(id: Seq<char>, other: Seq<char>)
    ensures
        id != other ==> mp4_path_of(id) != mp4_path_of(other),
        id != other ==> json_path_of(id) != json_path_of(other),
        mp4_path_of(id) != json_path_of(other),
{
    reveal_strlit("downloads/");
    reveal_strlit(".mp4");
    reveal_strlit(".json");
    let n = id.len() as int;
    let m = other.len() as int;
    let a = mp4_path_of(id);
    let b = mp4_path_of(other);
    let c = json_path_of(id);
    let d = json_path_of(other);
    assert(a.subrange(10, 10 + n) =~= id);
    assert(b.subrange(10, 10 + m) =~= other);
    assert(c.subrange(10, 10 + n) =~= id);
    assert(d.subrange(10, 10 + m) =~= other);
    assert(a.len() == 14 + n && b.len() == 14 + m);
    assert(c.len() == 15 + n && d.len() == 15 + m);
    assert(a[a.len() - 1] == '4');
    assert(d[d.len() - 1] == 'n');
}

/// Two tracks are the same exactly when all their words are.
pub proof fn law_same_track(a: YoutubeMusicVideoRef, b: YoutubeMusicVideoRef)
    ensures
        a@ == b@ <==> a.title@ == b.title@ && a.author@ == b.author@ && a.album@ == b.album@
            && a.video_id@ == b.video_id@ && a.duration@ == b.duration@,
{
}

} // verus!
