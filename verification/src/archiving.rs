//! What follows a successful run: the files that are archived, one after the
//! other, and the report of those that could not be.

use vstd::prelude::*;
use vstd::slice::slice_to_vec;
use vstd::utf8::*;

use crate::archive;
use crate::paths;
use crate::run::{RunJob, RunText};
use crate::text;
use crate::watch;
use crate::watch::WalkEntry;

verus! {

/// Why a file could not be archived.
#[derive(PartialEq, Eq, Debug)]
pub struct Failure<T> {
    /// The file's path, as it is shown.
    pub shown: T,
    pub error: T,
}

/// What the archiving waits for. `next` is the number of the file that comes
/// next.
#[derive(PartialEq, Eq, Debug)]
pub enum ArchivingStage<P, T, L> {
    /// To hear what is in the watched directory.
    Walk { dir: P },
    /// To hear what became of the next file, if there is one.
    Archive { files: L, next: usize },
    /// To hear that a failure was reported.
    Report { files: L, next: usize, failure: Failure<T> },
}

/// What happened.
#[derive(PartialEq, Eq, Debug)]
pub enum ArchivingEvent<T, E> {
    /// What a walk through the watched directory came upon.
    Walked(E),
    /// The file was archived, or had not changed, unless something failed.
    Archived { failure: Option<Failure<T>> },
    Reported,
}

/// What has to be done next.
#[derive(PartialEq, Eq, Debug)]
pub enum ArchivingRequest<P, T> {
    Walk { dir: P },
    /// Archive `file` as part of the project at `project_root`.
    ArchiveFile { file: P, project_root: P },
    Report { message: T },
    /// End with the exit status.
    Finish { status: i32 },
}

/// The archiving of the results of a run.
#[derive(PartialEq, Eq, Debug)]
pub struct ArchivingJob {
    pub project_root: Vec<u8>,
    pub stage: ArchivingStage<Vec<u8>, String, Vec<Vec<u8>>>,
}

/// The archiving, as the contracts speak of it.
#[verifier::ext_equal]
pub struct Archiving {
    pub project_root: Seq<u8>,
    pub stage: ArchivingStage<Seq<u8>, Seq<char>, Seq<Seq<u8>>>,
}

impl View for Failure<String> {
    type V = Failure<Seq<char>>;

    open spec fn view(&self) -> Failure<Seq<char>> {
        Failure { shown: self.shown@, error: self.error@ }
    }
}

impl View for ArchivingStage<Vec<u8>, String, Vec<Vec<u8>>> {
    type V = ArchivingStage<Seq<u8>, Seq<char>, Seq<Seq<u8>>>;

    open spec fn view(&self) -> ArchivingStage<Seq<u8>, Seq<char>, Seq<Seq<u8>>> {
        match *self {
            ArchivingStage::Walk { dir } => ArchivingStage::Walk { dir: dir@ },
            ArchivingStage::Archive { files, next } => ArchivingStage::Archive {
                files: paths::path_texts(files@),
                next,
            },
            ArchivingStage::Report { files, next, failure } => ArchivingStage::Report {
                files: paths::path_texts(files@),
                next,
                failure: failure@,
            },
        }
    }
}

impl View for ArchivingEvent<String, Vec<Option<WalkEntry>>> {
    type V = ArchivingEvent<Seq<char>, Seq<Option<WalkEntry>>>;

    open spec fn view(&self) -> ArchivingEvent<Seq<char>, Seq<Option<WalkEntry>>> {
        match *self {
            ArchivingEvent::Walked(entries) => ArchivingEvent::Walked(entries@),
            ArchivingEvent::Archived { failure } => ArchivingEvent::Archived {
                failure: match failure {
                    Some(failure) => Some(failure@),
                    None => None,
                },
            },
            ArchivingEvent::Reported => ArchivingEvent::Reported,
        }
    }
}

impl View for ArchivingRequest<Vec<u8>, String> {
    type V = ArchivingRequest<Seq<u8>, Seq<char>>;

    open spec fn view(&self) -> ArchivingRequest<Seq<u8>, Seq<char>> {
        match *self {
            ArchivingRequest::Walk { dir } => ArchivingRequest::Walk { dir: dir@ },
            ArchivingRequest::ArchiveFile { file, project_root } => ArchivingRequest::ArchiveFile {
                file: file@,
                project_root: project_root@,
            },
            ArchivingRequest::Report { message } => ArchivingRequest::Report { message: message@ },
            ArchivingRequest::Finish { status } => ArchivingRequest::Finish { status },
        }
    }
}

impl View for ArchivingJob {
    type V = Archiving;

    open spec fn view(&self) -> Archiving {
        Archiving { project_root: self.project_root@, stage: self.stage@ }
    }
}

/// The directory whose name is the project's: the watched one, or else that of
/// single files.
pub open spec fn project_root_of(config: RunText) -> Seq<u8> {
    match config.watch {
        Some(dir) => dir,
        None => archive::single_file(),
    }
}

/// The files to archive: those that the walk through the watched directory came
/// upon, or the script where no directory is watched.
pub open spec fn files_to_archive(
    config: RunText,
    entries: Seq<Option<WalkEntry>>,
) -> Seq<Seq<u8>> {
    match config.watch {
        Some(_) => watch::files_of(entries),
        None => seq![encode_utf8(config.file)],
    }
}

/// The archiving at its start.
pub open spec fn start(config: RunText) -> Archiving {
    Archiving {
        project_root: project_root_of(config),
        stage: match config.watch {
            Some(dir) => ArchivingStage::Walk { dir },
            None => ArchivingStage::Archive { files: seq![encode_utf8(config.file)], next: 0 },
        },
    }
}

/// The event answers what the archiving waits for.
pub open spec fn fits(
    archiving: Archiving,
    event: ArchivingEvent<Seq<char>, Seq<Option<WalkEntry>>>,
) -> bool {
    match archiving.stage {
        ArchivingStage::Walk { .. } => event is Walked,
        ArchivingStage::Archive { files, next } => next < files.len() && event is Archived,
        ArchivingStage::Report { .. } => event is Reported,
    }
}

/// The archiving after the event.
pub open spec fn next(
    archiving: Archiving,
    event: ArchivingEvent<Seq<char>, Seq<Option<WalkEntry>>>,
) -> Archiving {
    let stage = match (archiving.stage, event) {
        (ArchivingStage::Walk { .. }, ArchivingEvent::Walked(entries)) => ArchivingStage::Archive {
            files: watch::files_of(entries),
            next: 0,
        },
        (ArchivingStage::Archive { files, next }, ArchivingEvent::Archived { failure }) => {
            let next = (next + 1) as usize;
            match failure {
                Some(failure) => ArchivingStage::Report { files, next, failure },
                None => ArchivingStage::Archive { files, next },
            }
        },
        (ArchivingStage::Report { files, next, .. }, ArchivingEvent::Reported) => {
            ArchivingStage::Archive { files, next }
        },
        (stage, _) => stage,
    };
    Archiving { stage, ..archiving }
}

/// What is said about a file that could not be archived.
pub open spec fn failure_text(failure: Failure<Seq<char>>) -> Seq<char> {
    "Error archiving file "@ + failure.shown + ": "@ + failure.error
}

/// What the archiving asks for.
pub open spec fn request_of(archiving: Archiving) -> ArchivingRequest<Seq<u8>, Seq<char>> {
    match archiving.stage {
        ArchivingStage::Walk { dir } => ArchivingRequest::Walk { dir },
        ArchivingStage::Archive { files, next } => if next < files.len() {
            ArchivingRequest::ArchiveFile {
                file: files[next as int],
                project_root: archiving.project_root,
            }
        } else {
            ArchivingRequest::Finish { status: 0 }
        },
        ArchivingStage::Report { failure, .. } => ArchivingRequest::Report {
            message: failure_text(failure),
        },
    }
}

/// Starts to archive the results of a run that succeeded.
pub fn archive_results(job: RunJob) -> (archiving: ArchivingJob)
    requires
        job.stage@ is Succeeded,
    ensures
        archiving@ == start(job.config@),
{
    match job.config.watch {
        Some(dir) => {
            let project_root = slice_to_vec(dir.as_slice());
            ArchivingJob { project_root, stage: ArchivingStage::Walk { dir } }
        },
        None => {
            let mut files: Vec<Vec<u8>> = Vec::new();
            files.push(slice_to_vec(job.config.file.as_str().as_bytes()));
            assert(paths::path_texts(files@) =~= seq![encode_utf8(job.config.file@)]);
            ArchivingJob {
                project_root: slice_to_vec("single_file".as_bytes()),
                stage: ArchivingStage::Archive { files, next: 0 },
            }
        },
    }
}

impl ArchivingJob {
    /// What has to be done next.
    pub fn request(&self) -> (request: ArchivingRequest<Vec<u8>, String>)
        ensures
            request@ == request_of(self@),
    {
        match &self.stage {
            ArchivingStage::Walk { dir } => ArchivingRequest::Walk {
                dir: slice_to_vec(dir.as_slice()),
            },
            ArchivingStage::Archive { files, next } => if *next < files.len() {
                ArchivingRequest::ArchiveFile {
                    file: slice_to_vec(files[*next].as_slice()),
                    project_root: slice_to_vec(self.project_root.as_slice()),
                }
            } else {
                ArchivingRequest::Finish { status: 0 }
            },
            ArchivingStage::Report { failure, .. } => {
                let mut message = text::surround(
                    "Error archiving file ",
                    failure.shown.as_str(),
                    ": ",
                );
                message.append(failure.error.as_str());
                ArchivingRequest::Report { message }
            },
        }
    }

    /// The archiving after an event that answers its request.
    pub fn advance(
        self,
        event: ArchivingEvent<String, Vec<Option<WalkEntry>>>,
    ) -> (after: ArchivingJob)
        requires
            fits(self@, event@),
        ensures
            after@ == next(self@, event@),
    {
        let stage = match (self.stage, event) {
            (ArchivingStage::Walk { dir: _ }, ArchivingEvent::Walked(entries)) => {
                ArchivingStage::Archive { files: watch::get_monitored_files(entries), next: 0 }
            },
            (ArchivingStage::Archive { files, next }, ArchivingEvent::Archived { failure }) => {
                assert(next < files.len());
                let next: usize = next + 1;
                match failure {
                    Some(failure) => ArchivingStage::Report { files, next, failure },
                    None => ArchivingStage::Archive { files, next },
                }
            },
            (ArchivingStage::Report { files, next, failure: _ }, ArchivingEvent::Reported) => {
                ArchivingStage::Archive { files, next }
            },
            (stage, _) => stage,
        };
        ArchivingJob { project_root: self.project_root, stage }
    }
}

/// The archiving after the events, and what it asked for on the way; none if an
/// event does not answer what was waited for.
pub open spec fn run(
    archiving: Archiving,
    events: Seq<ArchivingEvent<Seq<char>, Seq<Option<WalkEntry>>>>,
) -> Option<(Archiving, Seq<ArchivingRequest<Seq<u8>, Seq<char>>>)>
    decreases events.len(),
{
    if events.len() == 0 {
        Some((archiving, seq![]))
    } else if !fits(archiving, events.first()) {
        None
    } else {
        match run(next(archiving, events.first()), events.drop_first()) {
            Some((end, asked)) => Some((end, seq![request_of(archiving)] + asked)),
            None => None,
        }
    }
}

/// The events in which the files from number `k` on fare as `outcomes` says.
pub open spec fn events_for(
    outcomes: Seq<Option<Failure<Seq<char>>>>,
    k: int,
) -> Seq<ArchivingEvent<Seq<char>, Seq<Option<WalkEntry>>>>
    decreases outcomes.len() - k,
{
    if k < 0 || k >= outcomes.len() {
        seq![]
    } else {
        let archived = ArchivingEvent::Archived { failure: outcomes[k] };
        match outcomes[k] {
            Some(_) => seq![archived, ArchivingEvent::Reported] + events_for(outcomes, k + 1),
            None => seq![archived] + events_for(outcomes, k + 1),
        }
    }
}

/// To archive each of the files from number `k` on, in order, and after each
/// that fails to report it.
pub open spec fn requests_for(
    project_root: Seq<u8>,
    files: Seq<Seq<u8>>,
    outcomes: Seq<Option<Failure<Seq<char>>>>,
    k: int,
) -> Seq<ArchivingRequest<Seq<u8>, Seq<char>>>
    decreases outcomes.len() - k,
{
    if k < 0 || k >= outcomes.len() {
        seq![]
    } else {
        let archive = ArchivingRequest::ArchiveFile { file: files[k], project_root };
        let rest = requests_for(project_root, files, outcomes, k + 1);
        match outcomes[k] {
            Some(failure) => seq![
                archive,
                ArchivingRequest::Report { message: failure_text(failure) },
            ] + rest,
            None => seq![archive] + rest,
        }
    }
}

proof fn lemma_run_from(
    project_root: Seq<u8>,
    files: Seq<Seq<u8>>,
    outcomes: Seq<Option<Failure<Seq<char>>>>,
    k: int,
)
    requires
        0 <= k <= files.len(),
        outcomes.len() == files.len(),
        files.len() <= usize::MAX,
    ensures
        run(
            (Archiving {
                project_root,
                stage: ArchivingStage::Archive { files, next: k as usize },
            }),
            events_for(outcomes, k),
        ) == Some(
            (
                (Archiving {
                    project_root,
                    stage: ArchivingStage::Archive { files, next: files.len() as usize },
                }),
                requests_for(project_root, files, outcomes, k),
            ),
        ),
    decreases files.len() - k,
{
    if k < files.len() {
        lemma_run_from(project_root, files, outcomes, k + 1);
        let here = Archiving {
            project_root,
            stage: ArchivingStage::Archive { files, next: k as usize },
        };
        let then = Archiving {
            project_root,
            stage: ArchivingStage::Archive { files, next: (k + 1) as usize },
        };
        let events = events_for(outcomes, k);
        let rest = requests_for(project_root, files, outcomes, k + 1);
        let archived = ArchivingEvent::<Seq<char>, Seq<Option<WalkEntry>>>::Archived {
            failure: outcomes[k],
        };
        assert(events.first() == archived);
        match outcomes[k] {
            Some(failure) => {
                let reporting = next(here, archived);
                let after = events.drop_first();
                assert(after.first() == ArchivingEvent::<
                    Seq<char>,
                    Seq<Option<WalkEntry>>,
                >::Reported);
                assert(after.drop_first() =~= events_for(outcomes, k + 1));
                assert(next(reporting, after.first()) == then);
                assert(run(reporting, after) is Some);
                assert(seq![request_of(here)] + (seq![request_of(reporting)] + rest)
                    =~= requests_for(project_root, files, outcomes, k));
            },
            None => {
                assert(events.drop_first() =~= events_for(outcomes, k + 1));
                assert(next(here, archived) == then);
                assert(seq![request_of(here)] + rest =~= requests_for(
                    project_root,
                    files,
                    outcomes,
                    k,
                ));
            },
        }
    }
}

/// Every file is asked for once and in order, whatever became of those before
/// it. A failure is reported and changes nothing else: at the end the exit
/// status is that of success.
pub proof fn law_every_file_is_archived(
    config: RunText,
    entries: Seq<Option<WalkEntry>>,
    outcomes: Seq<Option<Failure<Seq<char>>>>,
)
    requires
        outcomes.len() == files_to_archive(config, entries).len(),
        outcomes.len() <= usize::MAX,
    ensures
        ({
            let files = files_to_archive(config, entries);
            let asked_for = requests_for(project_root_of(config), files, outcomes, 0);
            let (events, requests) = match config.watch {
                Some(dir) => (
                    seq![ArchivingEvent::Walked(entries)] + events_for(outcomes, 0),
                    seq![ArchivingRequest::Walk { dir }] + asked_for,
                ),
                None => (events_for(outcomes, 0), asked_for),
            };
            run(start(config), events) matches Some((end, asked)) && asked == requests
                && request_of(end) == (ArchivingRequest::<Seq<u8>, Seq<char>>::Finish { status: 0 })
        }),
{
    let files = files_to_archive(config, entries);
    let project_root = project_root_of(config);
    lemma_run_from(project_root, files, outcomes, 0);
    if let Some(dir) = config.watch {
        let events = seq![ArchivingEvent::Walked(entries)] + events_for(outcomes, 0);
        assert(events.first() == ArchivingEvent::<
            Seq<char>,
            Seq<Option<WalkEntry>>,
        >::Walked(entries));
        assert(events.drop_first() =~= events_for(outcomes, 0));
        assert(next(start(config), events.first()) == (Archiving {
            project_root,
            stage: ArchivingStage::Archive { files, next: 0 },
        }));
    }
}

/// Where no directory is watched, the script is archived, as a single file; else
/// what is archived are the files that the walk through the watched directory
/// comes upon, as parts of that directory, and the script only if it is among
/// them.
pub proof fn law_what_is_archived(config: RunText, entries: Seq<Option<WalkEntry>>)
    ensures
        config.watch is None ==> request_of(start(config)) == (ArchivingRequest::<
            Seq<u8>,
            Seq<char>,
        >::ArchiveFile {
            file: encode_utf8(config.file),
            project_root: seq![115u8, 105, 110, 103, 108, 101, 95, 102, 105, 108, 101],
        }) && start(config).stage == (ArchivingStage::<Seq<u8>, Seq<char>, Seq<Seq<u8>>>::Archive {
            files: seq![encode_utf8(config.file)],
            next: 0,
        }),
        config.watch matches Some(dir) ==> request_of(start(config)) == (ArchivingRequest::<
            Seq<u8>,
            Seq<char>,
        >::Walk { dir }) && fits(start(config), ArchivingEvent::Walked(entries)) && next(
            start(config),
            ArchivingEvent::Walked(entries),
        ) == (Archiving {
            project_root: dir,
            stage: ArchivingStage::Archive { files: watch::files_of(entries), next: 0 },
        }),
{
    reveal_strlit("single_file");
    is_ascii_chars_encode_utf8("single_file"@);
    assert(encode_utf8("single_file"@) =~= seq![
        115u8,
        105,
        110,
        103,
        108,
        101,
        95,
        102,
        105,
        108,
        101,
    ]);
}

/// One file after the other is archived under the same project, whatever becomes
/// of each: after a failure there is a report of it, with the file and the error,
/// and then the next file follows. After the last the exit status is zero.
pub proof fn law_files_follow_each_other(
    project_root: Seq<u8>,
    files: Seq<Seq<u8>>,
    n: usize,
    failure: Failure<Seq<char>>,
    later: ArchivingEvent<Seq<char>, Seq<Option<WalkEntry>>>,
)
    requires
        n <= files.len() < usize::MAX,
    ensures
        ({
            let now = Archiving { project_root, stage: ArchivingStage::Archive { files, next: n } };
            let then = Archiving {
                project_root,
                stage: ArchivingStage::Archive { files, next: (n + 1) as usize },
            };
            let failed = next(now, ArchivingEvent::Archived { failure: Some(failure) });
            if n == files.len() {
                request_of(now) == (ArchivingRequest::<Seq<u8>, Seq<char>>::Finish { status: 0 })
                    && !fits(now, later)
            } else {
                &&& request_of(now) == (ArchivingRequest::<Seq<u8>, Seq<char>>::ArchiveFile {
                    file: files[n as int],
                    project_root,
                })
                &&& fits(now, ArchivingEvent::Archived { failure: None })
                &&& fits(now, ArchivingEvent::Archived { failure: Some(failure) })
                &&& next(now, ArchivingEvent::Archived { failure: None }) == then
                &&& request_of(failed) == (ArchivingRequest::<Seq<u8>, Seq<char>>::Report {
                    message: "Error archiving file "@ + failure.shown + ": "@ + failure.error,
                })
                &&& fits(failed, ArchivingEvent::Reported)
                &&& next(failed, ArchivingEvent::Reported) == then
            }
        }),
{
}

/// The contracts see everything that these values hold, as it is: nothing is left
/// out, and nothing is changed but that bytes and texts are taken as sequences.
pub proof fn law_views_show_everything(
    failure: Failure<String>,
    archiving_stage: ArchivingStage<Vec<u8>, String, Vec<Vec<u8>>>,
    archiving_event: ArchivingEvent<String, Vec<Option<WalkEntry>>>,
    archiving_request: ArchivingRequest<Vec<u8>, String>,
    archiving_job: ArchivingJob,
)
    ensures
        failure@ == (Failure { shown: failure.shown@, error: failure.error@ }),
        archiving_stage@ == (match archiving_stage {
            ArchivingStage::Walk { dir } => ArchivingStage::Walk { dir: dir@ },
            ArchivingStage::Archive { files, next } => ArchivingStage::Archive {
                files: paths::path_texts(files@),
                next,
            },
            ArchivingStage::Report { files, next, failure } => ArchivingStage::Report {
                files: paths::path_texts(files@),
                next,
                failure: failure@,
            },
        }),
        archiving_event@ == (match archiving_event {
            ArchivingEvent::Walked(entries) => ArchivingEvent::Walked(entries@),
            ArchivingEvent::Archived { failure } => ArchivingEvent::Archived {
                failure: match failure {
                    Some(failure) => Some(failure@),
                    None => None,
                },
            },
            ArchivingEvent::Reported => ArchivingEvent::Reported,
        }),
        archiving_request@ == (match archiving_request {
            ArchivingRequest::Walk { dir } => ArchivingRequest::Walk { dir: dir@ },
            ArchivingRequest::ArchiveFile { file, project_root } => ArchivingRequest::ArchiveFile {
                file: file@,
                project_root: project_root@,
            },
            ArchivingRequest::Report { message } => ArchivingRequest::Report { message: message@ },
            ArchivingRequest::Finish { status } => ArchivingRequest::Finish { status },
        }),
        archiving_job@ == (Archiving {
            project_root: archiving_job.project_root@,
            stage: archiving_job.stage@,
        }),
{
}

} // verus!
