//! The course of a download, from the request to the report of its outcome.
//!
//! A download alternates between decisions, which are made here, and work on
//! files and the network. [`DownloadManager::start_download`] takes what that
//! work found out, and returns what is to be done and found out next. A
//! download begins with [`DownloadStep::Start`] and is over when
//! [`DownloadWanted::Finished`] is returned.

use vstd::hash_set::StringHashSet;
use vstd::prelude::*;
use vstd::string::StringExecFns;

use crate::download::{status_update, DownloadManagerMessage, Downloader, StatusUpdate};
use crate::music_download_status::MusicDownloadStatus;
use crate::video::{json_path, json_path_of, mp4_path, mp4_path_of, YoutubeMusicVideoRef};

verus! {

/// Which downloads run, and which program runs them.
pub struct DownloadManager {
    /// The ids of tracks whose download was started and has not succeeded.
    pub in_download: StringHashSet,
    pub downloader: Downloader,
}

pub ghost struct ManagerView {
    pub in_download: Set<Seq<char>>,
    pub downloader: Downloader,
}

impl View for DownloadManager {
    type V = ManagerView;

    open spec fn view(&self) -> ManagerView {
        ManagerView { in_download: self.in_download@, downloader: self.downloader }
    }
}

/// What was found out about a download.
#[derive(Debug, Clone, Copy, PartialEq, Eq, Structural)]
pub enum DownloadStep {
    /// A download is asked for.
    Start,
    /// Whether the record of the track exists.
    RecordChecked { exists: bool },
    /// Whether the audio of the track exists, before it is downloaded.
    AudioChecked { exists: bool },
    /// The program has run.
    Downloaded { success: bool },
    /// The record of the track was written and reported.
    Recorded,
    /// Whether the audio of the track exists, after its download failed.
    LeftoverChecked { exists: bool },
}

/// What is to be done for a download.
#[derive(Debug, PartialEq, Eq)]
pub enum DownloadCommand {
    /// Report a status.
    Report(DownloadManagerMessage),
    /// Remove a file of the cache.
    RemoveFile(String),
    /// Write the record of the track to a file of the cache.
    WriteRecord(String),
    /// Append the track to the database.
    AppendToDatabase,
}

pub ghost enum DownloadCommandView {
    Report(StatusUpdate),
    RemoveFile(Seq<char>),
    WriteRecord(Seq<char>),
    AppendToDatabase,
}

impl View for DownloadCommand {
    type V = DownloadCommandView;

    open spec fn view(&self) -> DownloadCommandView {
        match self {
            DownloadCommand::Report(m) => DownloadCommandView::Report(m@),
            DownloadCommand::RemoveFile(p) => DownloadCommandView::RemoveFile(p@),
            DownloadCommand::WriteRecord(p) => DownloadCommandView::WriteRecord(p@),
            DownloadCommand::AppendToDatabase => DownloadCommandView::AppendToDatabase,
        }
    }
}

pub open spec fn download_command_views(c: Seq<DownloadCommand>) -> Seq<DownloadCommandView> {
    c.map_values(|c: DownloadCommand| c@)
}

/// What is to be found out next.
#[derive(Debug, PartialEq, Eq)]
pub enum DownloadWanted {
    /// Whether this file of the cache, the record of the track, exists.
    CheckRecord(String),
    /// Whether this file of the cache, the audio of the track, exists.
    CheckAudio(String),
    /// Let the program download the track to this file among the downloads.
    Download { downloader: Downloader, file_name: String },
    /// That the commands are carried out.
    Recording,
    /// Whether a failed download has left this file of the cache.
    CheckLeftover(String),
    /// Nothing: the download is over. Says whether the track is there.
    Finished(bool),
}

pub ghost enum DownloadWantedView {
    CheckRecord(Seq<char>),
    CheckAudio(Seq<char>),
    Download { downloader: Downloader, file_name: Seq<char> },
    Recording,
    CheckLeftover(Seq<char>),
    Finished(bool),
}

impl View for DownloadWanted {
    type V = DownloadWantedView;

    open spec fn view(&self) -> DownloadWantedView {
        match self {
            DownloadWanted::CheckRecord(p) => DownloadWantedView::CheckRecord(p@),
            DownloadWanted::CheckAudio(p) => DownloadWantedView::CheckAudio(p@),
            DownloadWanted::Download { downloader, file_name } => DownloadWantedView::Download {
                downloader: *downloader,
                file_name: file_name@,
            },
            DownloadWanted::Recording => DownloadWantedView::Recording,
            DownloadWanted::CheckLeftover(p) => DownloadWantedView::CheckLeftover(p@),
            DownloadWanted::Finished(b) => DownloadWantedView::Finished(*b),
        }
    }
}

/// What follows from a step.
pub ghost struct DownloadOutcome {
    pub manager: ManagerView,
    pub commands: Seq<DownloadCommandView>,
    pub wanted: DownloadWantedView,
}

/// The report of a status.
pub open spec fn report(id: Seq<char>, status: MusicDownloadStatus) -> DownloadCommandView {
    DownloadCommandView::Report(StatusUpdate { video_id: id, status })
}

impl ManagerView {
    /// What follows from a step of the download of a track.
    pub open spec fn downloading(self, id: Seq<char>, step: DownloadStep) -> DownloadOutcome {
        match step {
            DownloadStep::Start => if self.in_download.contains(id) {
                DownloadOutcome {
                    manager: self,
                    commands: seq![],
                    wanted: DownloadWantedView::Finished(false),
                }
            } else {
                DownloadOutcome {
                    manager: ManagerView { in_download: self.in_download.insert(id), ..self },
                    commands: seq![report(id, MusicDownloadStatus::Spinner(0))],
                    wanted: DownloadWantedView::CheckRecord(json_path_of(id)),
                }
            },
            DownloadStep::RecordChecked { exists } => if exists {
                DownloadOutcome {
                    manager: self,
                    commands: seq![report(id, MusicDownloadStatus::Downloaded)],
                    wanted: DownloadWantedView::Finished(true),
                }
            } else {
                DownloadOutcome {
                    manager: self,
                    commands: seq![],
                    wanted: DownloadWantedView::CheckAudio(mp4_path_of(id)),
                }
            },
            DownloadStep::AudioChecked { exists } => DownloadOutcome {
                manager: self,
                commands: if exists {
                    seq![DownloadCommandView::RemoveFile(mp4_path_of(id))]
                } else {
                    seq![]
                },
                wanted: DownloadWantedView::Download {
                    downloader: self.downloader,
                    file_name: id + ".mp4"@,
                },
            },
            DownloadStep::Downloaded { success } => if success {
                DownloadOutcome {
                    manager: self,
                    commands: seq![
                        DownloadCommandView::WriteRecord(json_path_of(id)),
                        DownloadCommandView::AppendToDatabase,
                        report(id, MusicDownloadStatus::Downloaded),
                    ],
                    wanted: DownloadWantedView::Recording,
                }
            } else {
                DownloadOutcome {
                    manager: self,
                    commands: seq![],
                    wanted: DownloadWantedView::CheckLeftover(mp4_path_of(id)),
                }
            },
            DownloadStep::Recorded => DownloadOutcome {
                manager: ManagerView { in_download: self.in_download.remove(id), ..self },
                commands: seq![],
                wanted: DownloadWantedView::Finished(true),
            },
            DownloadStep::LeftoverChecked { exists } => DownloadOutcome {
                manager: self,
                commands: if exists {
                    seq![
                        DownloadCommandView::RemoveFile(mp4_path_of(id)),
                        report(id, MusicDownloadStatus::DownloadFailed),
                    ]
                } else {
                    seq![report(id, MusicDownloadStatus::DownloadFailed)]
                },
                wanted: DownloadWantedView::Finished(false),
            },
        }
    }
}

impl DownloadManager {
    /// A manager without downloads.
    pub fn new(downloader: Downloader) -> (m: Self)
        ensures
            m@ == (ManagerView { in_download: Set::empty(), downloader }),
    {
        Self { in_download: StringHashSet::new(), downloader }
    }

    /// Does the part of the download of a track that follows from `step`.
    pub fn start_download(&mut self, song: &YoutubeMusicVideoRef, step: DownloadStep) -> (r: (
        Vec<DownloadCommand>,
        DownloadWanted,
    ))
        ensures
            ({
                let next = old(self)@.downloading(song@.video_id, step);
                &&& final(self)@ == next.manager
                &&& download_command_views(r.0@) == next.commands
                &&& r.1@ == next.wanted
            }),
    {
        let id = song.video_id.as_str();
        let ghost next = self@.downloading(id@, step);
        let mut commands: Vec<DownloadCommand> = Vec::new();
        let wanted = match step {
            DownloadStep::Start => {
                if self.in_download.contains(id) {
                    DownloadWanted::Finished(false)
                } else {
                    self.in_download.insert(song.video_id.clone());
                    commands.push(
                        DownloadCommand::Report(
                            status_update(id, MusicDownloadStatus::Spinner(0)),
                        ),
                    );
                    DownloadWanted::CheckRecord(json_path(id))
                }
            },
            DownloadStep::RecordChecked { exists } => {
                if exists {
                    commands.push(
                        DownloadCommand::Report(
                            status_update(id, MusicDownloadStatus::Downloaded),
                        ),
                    );
                    DownloadWanted::Finished(true)
                } else {
                    DownloadWanted::CheckAudio(mp4_path(id))
                }
            },
            DownloadStep::AudioChecked { exists } => {
                if exists {
                    commands.push(DownloadCommand::RemoveFile(mp4_path(id)));
                }
                self.handle_download(id)
            },
            DownloadStep::Downloaded { success } => {
                if success {
                    commands.push(DownloadCommand::WriteRecord(json_path(id)));
                    commands.push(DownloadCommand::AppendToDatabase);
                    commands.push(
                        DownloadCommand::Report(
                            status_update(id, MusicDownloadStatus::Downloaded),
                        ),
                    );
                    DownloadWanted::Recording
                } else {
                    DownloadWanted::CheckLeftover(mp4_path(id))
                }
            },
            DownloadStep::Recorded => {
                self.in_download.remove(id);
                DownloadWanted::Finished(true)
            },
            DownloadStep::LeftoverChecked { exists } => {
                if exists {
                    commands.push(DownloadCommand::RemoveFile(mp4_path(id)));
                }
                commands.push(
                    DownloadCommand::Report(
                        status_update(id, MusicDownloadStatus::DownloadFailed),
                    ),
                );
                DownloadWanted::Finished(false)
            },
        };
        assert(download_command_views(commands@) =~= next.commands);
        (commands, wanted)
    }

    /// Says which program is to download a track, and to which file.
    pub fn handle_download(&self, id: &str) -> (w: DownloadWanted)
        ensures
            w@ == (DownloadWantedView::Download {
                downloader: self.downloader,
                file_name: id@ + ".mp4"@,
            }),
    {
        let mut file_name = id.to_owned();
        file_name.append(".mp4");
        DownloadWanted::Download { downloader: self.downloader, file_name }
    }
}

/// A track is downloaded once at a time: a request for a track in download is
/// refused, and nothing is done or reported for it.
pub proof fn law_no_second_download(m: ManagerView, id: Seq<char>)
    requires
        m.in_download.contains(id),
    ensures
        m.downloading(id, DownloadStep::Start) == (DownloadOutcome {
            manager: m,
            commands: seq![],
            wanted: DownloadWantedView::Finished(false),
        }),
{
}

/// An accepted request puts the track in download, and only a download that
/// was recorded takes it out again: a failed one keeps later requests refused.
/// Other tracks are not affected.
pub proof fn law_in_download(m: ManagerView, id: Seq<char>, step: DownloadStep)
    ensures
        ({
            let after = m.downloading(id, step).manager.in_download;
            &&& step is Start ==> after.contains(id)
            &&& step is Recorded ==> !after.contains(id)
            &&& !(step is Start) && !(step is Recorded) ==> after == m.in_download
            &&& forall|other: Seq<char>|
                other != id ==> (#[trigger] after.contains(other) <==> m.in_download.contains(
                    other,
                ))
        }),
{
}

/// The record of a track is written only after its download has succeeded, so
/// that a record always stands for a complete file.
pub proof fn law_record_means_success(m: ManagerView, id: Seq<char>, step: DownloadStep, i: int)
    requires
        0 <= i < m.downloading(id, step).commands.len(),
        m.downloading(id, step).commands[i] is WriteRecord,
    ensures
        step == (DownloadStep::Downloaded { success: true }),
{
}

/// What a download comes across: whether its files exist when they are looked
/// for, and whether the program succeeds.
pub ghost struct Circumstances {
    pub record: bool,
    pub audio: bool,
    pub success: bool,
    pub leftover: bool,
}

/// The step that answers what is wanted.
pub open spec fn answer(wanted: DownloadWantedView, c: Circumstances) -> Option<DownloadStep> {
    match wanted {
        DownloadWantedView::CheckRecord(_) => Some(
            DownloadStep::RecordChecked { exists: c.record },
        ),
        DownloadWantedView::CheckAudio(_) => Some(DownloadStep::AudioChecked { exists: c.audio }),
        DownloadWantedView::Download { .. } => Some(
            DownloadStep::Downloaded { success: c.success },
        ),
        DownloadWantedView::Recording => Some(DownloadStep::Recorded),
        DownloadWantedView::CheckLeftover(_) => Some(
            DownloadStep::LeftoverChecked { exists: c.leftover },
        ),
        DownloadWantedView::Finished(_) => None,
    }
}

/// What follows from a step and at most `more` steps after it.
pub open spec fn course(
    m: ManagerView,
    id: Seq<char>,
    step: DownloadStep,
    c: Circumstances,
    more: nat,
) -> DownloadOutcome
    decreases more,
{
    let next = m.downloading(id, step);
    match answer(next.wanted, c) {
        Some(step) if more > 0 => {
            let rest = course(next.manager, id, step, c, (more - 1) as nat);
            DownloadOutcome { commands: next.commands + rest.commands, ..rest }
        },
        _ => next,
    }
}

/// A download that is accepted comes to its end after at most five steps. It
/// begins with the report of a spinner and ends with the report of its outcome;
/// it says that the track is there exactly when there was a record of it or the
/// program has succeeded.
pub proof fn law_course_of_a_download(m: ManagerView, id: Seq<char>, c: Circumstances)
    requires
        !m.in_download.contains(id),
    ensures
        ({
            let end = course(m, id, DownloadStep::Start, c, 4);
            let there = c.record || c.success;
            &&& end.wanted == DownloadWantedView::Finished(there)
            &&& end.commands.len() >= 2
            &&& end.commands.first() == report(id, MusicDownloadStatus::Spinner(0))
            &&& end.commands.last() == report(
                id,
                if there {
                    MusicDownloadStatus::Downloaded
                } else {
                    MusicDownloadStatus::DownloadFailed
                },
            )
            &&& end.commands.contains(DownloadCommandView::WriteRecord(json_path_of(id)))
                <==> !c.record && c.success
            &&& end.manager.in_download.contains(id) <==> c.record || !c.success
        }),
{
    reveal_with_fuel(course, 5);
    let end = course(m, id, DownloadStep::Start, c, 4);
    if !c.record && c.success {
        assert(end.commands[end.commands.len() - 3] == DownloadCommandView::WriteRecord(
            json_path_of(id),
        ));
    }
}

/// Whatever was found in the cache, a track is downloaded by the program that is
/// set, to the file that is looked for, played and removed elsewhere: under
/// `downloads/`, its id with the ending `.mp4`. Whether an old file was there makes
/// no difference to that; it is removed exactly when it was.
pub proof fn law_download_goes_to_the_played_file(
    m: ManagerView,
    id: Seq<char>,
    step: DownloadStep,
    found: bool,
)
    ensures
        m.downloading(id, step).wanted is Download <==> step is AudioChecked,
        step is AudioChecked ==> ({
            let wanted = m.downloading(id, step).wanted;
            &&& wanted->downloader == m.downloader
            &&& "downloads/"@ + wanted->file_name == mp4_path_of(id)
            &&& wanted->file_name == id + ".mp4"@
        }),
        m.downloading(id, DownloadStep::AudioChecked { exists: true }).wanted == m.downloading(
            id,
            DownloadStep::AudioChecked { exists: false },
        ).wanted,
        m.downloading(id, DownloadStep::AudioChecked { exists: found }).commands == if found {
            seq![DownloadCommandView::RemoveFile("downloads/"@ + id + ".mp4"@)]
        } else {
            seq![]
        },
{
    assert("downloads/"@ + (id + ".mp4"@) =~= mp4_path_of(id));
}

/// Every file that a download looks for, removes or writes is the track's own, and
/// every report is about the track.
pub proof fn law_files_of_a_download(m: ManagerView, id: Seq<char>, step: DownloadStep, i: int)
    requires
        0 <= i < m.downloading(id, step).commands.len(),
    ensures
        match m.downloading(id, step).commands[i] {
            DownloadCommandView::Report(u) => u.video_id == id,
            DownloadCommandView::RemoveFile(p) => p == "downloads/"@ + id + ".mp4"@,
            DownloadCommandView::WriteRecord(p) => p == "downloads/"@ + id + ".json"@,
            DownloadCommandView::AppendToDatabase => true,
        },
{
}

/// A request is accepted exactly when the track is not in download; then a spinner
/// is reported and its record is looked for. A track with a record is there;
/// without one, its audio is looked for.
pub proof fn law_request(m: ManagerView, id: Seq<char>, found: bool)
    ensures
        ({
            let next = m.downloading(id, DownloadStep::Start);
            let accepted = !m.in_download.contains(id);
            &&& next.manager.downloader == m.downloader
            &&& accepted ==> {
                &&& next.manager.in_download == m.in_download.insert(id)
                &&& next.commands == seq![
                    DownloadCommandView::Report(
                        StatusUpdate { video_id: id, status: MusicDownloadStatus::Spinner(0) },
                    ),
                ]
                &&& next.wanted == DownloadWantedView::CheckRecord("downloads/"@ + id + ".json"@)
            }
            &&& !accepted ==> {
                &&& next.manager == m
                &&& next.commands.len() == 0
                &&& next.wanted == DownloadWantedView::Finished(false)
            }
        }),
        ({
            let next = m.downloading(id, DownloadStep::RecordChecked { exists: found });
            &&& next.manager == m
            &&& found ==> {
                &&& next.commands == seq![
                    DownloadCommandView::Report(
                        StatusUpdate { video_id: id, status: MusicDownloadStatus::Downloaded },
                    ),
                ]
                &&& next.wanted == DownloadWantedView::Finished(true)
            }
            &&& !found ==> {
                &&& next.commands.len() == 0
                &&& next.wanted == DownloadWantedView::CheckAudio("downloads/"@ + id + ".mp4"@)
            }
        }),
{
}

/// A download that succeeded is recorded, put into the database and reported, in
/// this order, and only then is the track out of download and there. One that
/// failed leaves no audio behind, is reported so, and the track is not there.
pub proof fn law_outcome_of_a_download(m: ManagerView, id: Seq<char>, found: bool)
    ensures
        ({
            let next = m.downloading(id, DownloadStep::Downloaded { success: true });
            &&& next.manager == m
            &&& next.commands == seq![
                DownloadCommandView::WriteRecord("downloads/"@ + id + ".json"@),
                DownloadCommandView::AppendToDatabase,
                DownloadCommandView::Report(
                    StatusUpdate { video_id: id, status: MusicDownloadStatus::Downloaded },
                ),
            ]
            &&& next.wanted is Recording
        }),
        ({
            let next = m.downloading(id, DownloadStep::Recorded);
            &&& next.manager.in_download == m.in_download.remove(id)
            &&& next.manager.downloader == m.downloader
            &&& next.commands.len() == 0
            &&& next.wanted == DownloadWantedView::Finished(true)
        }),
        ({
            let next = m.downloading(id, DownloadStep::Downloaded { success: false });
            &&& next.manager == m
            &&& next.commands.len() == 0
            &&& next.wanted == DownloadWantedView::CheckLeftover("downloads/"@ + id + ".mp4"@)
        }),
        ({
            let next = m.downloading(id, DownloadStep::LeftoverChecked { exists: found });
            let failed = DownloadCommandView::Report(
                StatusUpdate { video_id: id, status: MusicDownloadStatus::DownloadFailed },
            );
            &&& next.manager == m
            &&& found ==> next.commands == seq![
                DownloadCommandView::RemoveFile("downloads/"@ + id + ".mp4"@),
                failed,
            ]
            &&& !found ==> next.commands == seq![failed]
            &&& next.wanted == DownloadWantedView::Finished(false)
        }),
{
}

} // verus!
