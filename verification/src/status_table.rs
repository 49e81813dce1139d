//! The download status of each track, by track id.

use vstd::hash_map::StringHashMap;
use vstd::prelude::*;

use crate::music_download_status::{ticked, MusicDownloadStatus};

verus! {

/// A table from track ids to download statuses.
pub struct StatusTable {
    statuses: StringHashMap<MusicDownloadStatus>,
    ids: Vec<String>,
}

impl View for StatusTable {
    type V = Map<Seq<char>, MusicDownloadStatus>;

    closed spec fn view(&self) -> Map<Seq<char>, MusicDownloadStatus> {
        self.statuses@
    }
}

/// All statuses one tick later.
pub open spec fn all_ticked(m: Map<Seq<char>, MusicDownloadStatus>) -> Map<
    Seq<char>,
    MusicDownloadStatus,
> {
    m.map_values(|s: MusicDownloadStatus| ticked(s))
}

/// The status of a track, if it has one.
pub open spec fn lookup(m: Map<Seq<char>, MusicDownloadStatus>, id: Seq<char>) -> Option<
    MusicDownloadStatus,
> {
    if m.contains_key(id) {
        Some(m[id])
    } else {
        None
    }
}

/// `ids` lists the keys of `m`, each once.
spec fn lists_keys(ids: Seq<String>, m: Map<Seq<char>, MusicDownloadStatus>) -> bool {
    &&& forall|i: int| 0 <= i < ids.len() ==> m.contains_key((#[trigger] ids[i])@)
    &&& forall|i: int, j: int|
        0 <= i < j < ids.len() ==> (#[trigger] ids[i])@ != (#[trigger] ids[j])@
    &&& forall|k: Seq<char>| #[trigger]
        m.contains_key(k) ==> exists|i: int| 0 <= i < ids.len() && (#[trigger] ids[i])@ == k
}

impl StatusTable {
    #[verifier::type_invariant]
    spec fn well_formed(self) -> bool {
        lists_keys(self.ids@, self.statuses@)
    }

    /// The table without entries.
    pub fn new() -> (t: Self)
        ensures
            t@ == Map::<Seq<char>, MusicDownloadStatus>::empty(),
    {
        StatusTable { statuses: StringHashMap::new(), ids: Vec::new() }
    }

    /// The status of a track, if it has one.
    pub fn get(&self, id: &str) -> (r: Option<MusicDownloadStatus>)
        ensures
            r == lookup(self@, id@),
    {
        match self.statuses.get(id) {
            Some(s) => Some(*s),
            None => None,
        }
    }

    /// Sets the status of a track.
    pub fn insert(&mut self, id: String, status: MusicDownloadStatus)
        ensures
            final(self)@ == old(self)@.insert(id@, status),
    {
        proof {
            use_type_invariant(&*self);
        }
        let mut taken = StatusTable::new();
        core::mem::swap(self, &mut taken);
        let StatusTable { mut statuses, mut ids } = taken;
        let ghost m = statuses@;
        let ghost before = ids@;
        if !statuses.contains_key(id.as_str()) {
            ids.push(id.clone());
        }
        statuses.insert(id, status);
        proof {
            assert forall|k: Seq<char>| #[trigger] statuses@.contains_key(k) implies exists|i: int|
                0 <= i < ids@.len() && (#[trigger] ids@[i])@ == k by {
                if m.contains_key(k) {
                    let i = choose|i: int| 0 <= i < before.len() && (#[trigger] before[i])@ == k;
                    assert(ids@[i] == before[i]);
                } else {
                    assert(ids@[ids@.len() - 1]@ == k);
                }
            }
        }
        *self = StatusTable { statuses, ids };
    }

    /// Moves every status on by one tick.
    pub fn tick(&mut self)
        ensures
            final(self)@ == all_ticked(old(self)@),
    {
        proof {
            use_type_invariant(&*self);
        }
        let mut taken = StatusTable::new();
        core::mem::swap(self, &mut taken);
        let StatusTable { mut statuses, ids } = taken;
        let ghost m = statuses@;
        let mut i: usize = 0;
        while i < ids.len()
            invariant
                i <= ids.len(),
                lists_keys(ids@, m),
                statuses@.dom() == m.dom(),
                forall|j: int|
                    0 <= j < i ==> statuses@[(#[trigger] ids@[j])@] == ticked(m[ids@[j]@]),
                forall|j: int|
                    i <= j < ids@.len() ==> statuses@[(#[trigger] ids@[j])@] == m[ids@[j]@],
            decreases ids.len() - i,
        {
            let id = &ids[i];
            assert(m.contains_key(ids@[i as int]@));
            if let Some(status) = statuses.get(id.as_str()) {
                let next = status.tick();
                statuses.insert(id.clone(), next);
            }
            assert(statuses@.dom() =~= m.dom());
            i += 1;
        }
        proof {
            assert forall|k: Seq<char>| #[trigger] m.contains_key(k) implies statuses@[k] == ticked(
                m[k],
            ) by {
                let j = choose|j: int| 0 <= j < ids@.len() && (#[trigger] ids@[j])@ == k;
                assert(statuses@[ids@[j]@] == ticked(m[ids@[j]@]));
            }
            assert(statuses@ =~= all_ticked(m));
            assert forall|k: Seq<char>| #[trigger] statuses@.contains_key(k) implies exists|n: int|
                0 <= n < ids@.len() && (#[trigger] ids@[n])@ == k by {
                assert(m.contains_key(k));
            }
        }
        *self = StatusTable { statuses, ids };
    }
}

/// A status is found where one was set, and the one that was set last; no other
/// track is affected.
pub proof fn law_last_status_counts(
    m: Map<Seq<char>, MusicDownloadStatus>,
    id: Seq<char>,
    other: Seq<char>,
    status: MusicDownloadStatus,
)
    ensures
        lookup(m.insert(id, status), id) == Some(status),
        other != id ==> lookup(m.insert(id, status), other) == lookup(m, other),
        lookup(m, id) is Some <==> m.contains_key(id),
        lookup(m, id) matches Some(s) ==> m[id] == s,
{
}

/// A tick turns each spinner by one frame and leaves every other status.
pub proof fn law_tick_turns_spinners(m: Map<Seq<char>, MusicDownloadStatus>, id: Seq<char>)
    ensures
        all_ticked(m).contains_key(id) <==> m.contains_key(id),
        m.contains_key(id) ==> match m[id] {
            MusicDownloadStatus::Spinner(frame) => all_ticked(m)[id]
                == MusicDownloadStatus::Spinner(
                if frame < usize::MAX {
                    (frame + 1) as usize
                } else {
                    0
                },
            ),
            other => all_ticked(m)[id] == other,
        },
{
}

} // verus!
