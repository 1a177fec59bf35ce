//! The projects in the archive: listing them, and removing one.

use vstd::prelude::*;
use vstd::slice::slice_to_vec;
use vstd::utf8::*;

use crate::archive;
use crate::command;
use crate::paths;
use crate::text;

verus! {

/// An entry of the archive's root.
#[derive(PartialEq, Eq, Debug)]
pub struct ProjectEntry {
    /// Its name; `None` where that is not text.
    pub name: Option<String>,
    pub is_dir: bool,
}

/// The line for a project in the list; none for an entry that is no directory.
pub open spec fn entry_line(entry: ProjectEntry) -> Option<Seq<char>> {
    let name = match entry.name {
        Some(name) => name@,
        None => "unknown"@,
    };
    if !entry.is_dir {
        None
    } else if name == "single_file"@ {
        Some(" - [Single File Archive]"@)
    } else {
        Some(" - [Project] "@ + name)
    }
}

/// The lines for the projects among the entries, in order.
pub open spec fn entry_lines(entries: Seq<ProjectEntry>) -> Seq<Seq<char>>
    decreases entries.len(),
{
    if entries.len() == 0 {
        seq![]
    } else {
        let before = entry_lines(entries.drop_last());
        match entry_line(entries.last()) {
            Some(line) => before.push(line),
            None => before,
        }
    }
}

/// The list of the projects, given whether the archive's root exists and what
/// is in it.
pub open spec fn list_of(root_exists: bool, entries: Seq<ProjectEntry>) -> Seq<Seq<char>> {
    if root_exists {
        seq!["Tracked projects and files:"@] + entry_lines(entries)
    } else {
        seq!["No projects tracked yet."@]
    }
}

fn make_entry_line(entry: &ProjectEntry) -> (line: Option<String>)
    ensures
        text::text_of(line) == entry_line(*entry),
{
    if !entry.is_dir {
        return None;
    }
    let name: &str = match &entry.name {
        Some(name) => name.as_str(),
        None => "unknown",
    };
    if text::same_text(name, "single_file") {
        Some(" - [Single File Archive]".to_owned())
    } else {
        let mut line = " - [Project] ".to_owned();
        line.append(name);
        Some(line)
    }
}

/// The list of the projects, line by line.
pub fn list_projects(root_exists: bool, entries: &Vec<ProjectEntry>) -> (lines: Vec<String>)
    ensures
        command::texts(lines@) == list_of(root_exists, entries@),
{
    let mut lines: Vec<String> = Vec::new();
    if !root_exists {
        lines.push("No projects tracked yet.".to_owned());
        assert(command::texts(lines@) =~= list_of(root_exists, entries@));
        return lines;
    }
    lines.push("Tracked projects and files:".to_owned());
    let ghost head = seq!["Tracked projects and files:"@];
    let mut i: usize = 0;
    assert(command::texts(lines@) =~= head + entry_lines(entries@.take(0)));
    while i < entries.len()
        invariant
            i <= entries.len(),
            head == seq!["Tracked projects and files:"@],
            command::texts(lines@) == head + entry_lines(entries@.take(i as int)),
        decreases entries.len() - i,
    {
        assert(entries@.take(i + 1).drop_last() == entries@.take(i as int));
        let ghost before = lines@;
        match make_entry_line(&entries[i]) {
            Some(line) => {
                lines.push(line);
                assert(command::texts(lines@) =~= command::texts(before).push(line@));
                assert(head + entry_lines(entries@.take(i + 1)) =~= (head + entry_lines(
                    entries@.take(i as int),
                )).push(line@));
            },
            None => {},
        }
        i += 1;
    }
    assert(entries@.take(i as int) == entries@);
    lines
}

/// What is said of a project that is not in the archive.
pub open spec fn not_found(project: Seq<char>) -> Seq<char> {
    "Error: Project '"@ + project + "' not found."@
}

/// What is said of a project that is not in the archive.
pub fn not_found_text(project: &str) -> (message: String)
    ensures
        message@ == not_found(project@),
{
    text::surround("Error: Project '", project, "' not found.")
}

/// What removing a project waits for.
#[derive(PartialEq, Eq, Debug)]
pub enum RemovalStage<P> {
    /// To hear whether there is something at `dir`.
    Probe { dir: P },
    /// To hear what the user says.
    Ask { dir: P },
    /// To hear that `dir` is removed.
    Remove { dir: P },
    /// Nothing: there is no such project.
    Missing,
    /// Nothing: the user did not agree.
    Cancelled,
    /// Nothing: the project is removed.
    Removed,
}

/// What happened.
#[derive(PartialEq, Eq, Debug)]
pub enum RemovalEvent<T> {
    /// Whether there is something at the path.
    Found(bool),
    /// What the user answered.
    Answer(T),
    Removed,
}

/// What has to be done next.
#[derive(PartialEq, Eq, Debug)]
pub enum RemovalRequest<P, T> {
    Probe { dir: P },
    Ask { prompt: T },
    /// Remove `dir` with everything in it.
    Remove { dir: P },
    /// Report that there is no such project.
    Missing { message: T },
    /// Say how it ended.
    Finish { message: T },
}

/// The removal of a project.
#[derive(PartialEq, Eq, Debug)]
pub struct RemovalJob {
    pub project: String,
    pub stage: RemovalStage<Vec<u8>>,
}

impl View for RemovalStage<Vec<u8>> {
    type V = RemovalStage<Seq<u8>>;

    open spec fn view(&self) -> RemovalStage<Seq<u8>> {
        match *self {
            RemovalStage::Probe { dir } => RemovalStage::Probe { dir: dir@ },
            RemovalStage::Ask { dir } => RemovalStage::Ask { dir: dir@ },
            RemovalStage::Remove { dir } => RemovalStage::Remove { dir: dir@ },
            RemovalStage::Missing => RemovalStage::Missing,
            RemovalStage::Cancelled => RemovalStage::Cancelled,
            RemovalStage::Removed => RemovalStage::Removed,
        }
    }
}

impl View for RemovalEvent<String> {
    type V = RemovalEvent<Seq<char>>;

    open spec fn view(&self) -> RemovalEvent<Seq<char>> {
        match *self {
            RemovalEvent::Found(yes) => RemovalEvent::Found(yes),
            RemovalEvent::Answer(answer) => RemovalEvent::Answer(answer@),
            RemovalEvent::Removed => RemovalEvent::Removed,
        }
    }
}

impl View for RemovalRequest<Vec<u8>, String> {
    type V = RemovalRequest<Seq<u8>, Seq<char>>;

    open spec fn view(&self) -> RemovalRequest<Seq<u8>, Seq<char>> {
        match *self {
            RemovalRequest::Probe { dir } => RemovalRequest::Probe { dir: dir@ },
            RemovalRequest::Ask { prompt } => RemovalRequest::Ask { prompt: prompt@ },
            RemovalRequest::Remove { dir } => RemovalRequest::Remove { dir: dir@ },
            RemovalRequest::Missing { message } => RemovalRequest::Missing { message: message@ },
            RemovalRequest::Finish { message } => RemovalRequest::Finish { message: message@ },
        }
    }
}

/// The first stage: a name that leads out of the archive is that of no project.
pub open spec fn first_stage(home: Seq<char>, project: Seq<char>) -> RemovalStage<Seq<u8>> {
    match archive::project_path_of(home, project) {
        Some(dir) => RemovalStage::Probe { dir },
        None => RemovalStage::Missing,
    }
}

/// The event answers what the stage waits for.
pub open spec fn fits(stage: RemovalStage<Seq<u8>>, event: RemovalEvent<Seq<char>>) -> bool {
    match stage {
        RemovalStage::Probe { .. } => event is Found,
        RemovalStage::Ask { .. } => event is Answer,
        RemovalStage::Remove { .. } => event is Removed,
        RemovalStage::Missing | RemovalStage::Cancelled | RemovalStage::Removed => false,
    }
}

/// The stage that follows.
pub open spec fn next(
    stage: RemovalStage<Seq<u8>>,
    event: RemovalEvent<Seq<char>>,
) -> RemovalStage<Seq<u8>> {
    match (stage, event) {
        (RemovalStage::Probe { dir }, RemovalEvent::Found(yes)) => if yes {
            RemovalStage::Ask { dir }
        } else {
            RemovalStage::Missing
        },
        (RemovalStage::Ask { dir }, RemovalEvent::Answer(answer)) => if text::confirms(answer) {
            RemovalStage::Remove { dir }
        } else {
            RemovalStage::Cancelled
        },
        (RemovalStage::Remove { dir }, RemovalEvent::Removed) => RemovalStage::Removed,
        _ => stage,
    }
}

/// What a stage asks for.
pub open spec fn request_of(
    project: Seq<char>,
    stage: RemovalStage<Seq<u8>>,
) -> RemovalRequest<Seq<u8>, Seq<char>> {
    match stage {
        RemovalStage::Probe { dir } => RemovalRequest::Probe { dir },
        RemovalStage::Ask { .. } => RemovalRequest::Ask {
            prompt: "Are you sure you want to remove project '"@ + project + "'? [y/N]"@,
        },
        RemovalStage::Remove { dir } => RemovalRequest::Remove { dir },
        RemovalStage::Missing => RemovalRequest::Missing { message: not_found(project) },
        RemovalStage::Cancelled => RemovalRequest::Finish { message: "Removal cancelled."@ },
        RemovalStage::Removed => RemovalRequest::Finish {
            message: "Project '"@ + project + "' removed."@,
        },
    }
}

/// Starts to remove a project from the archive of the user whose home directory
/// is `home`.
pub fn remove_project(home: &str, project: &str) -> (job: RemovalJob)
    ensures
        job.project@ == project@,
        job.stage@ == first_stage(home@, project@),
{
    let stage = match archive::project_path(home, project) {
        Some(dir) => RemovalStage::Probe { dir },
        None => RemovalStage::Missing,
    };
    RemovalJob { project: project.to_owned(), stage }
}

impl RemovalJob {
    /// What has to be done next.
    pub fn request(&self) -> (request: RemovalRequest<Vec<u8>, String>)
        ensures
            request@ == request_of(self.project@, self.stage@),
    {
        let project = self.project.as_str();
        match &self.stage {
            RemovalStage::Probe { dir } => RemovalRequest::Probe {
                dir: slice_to_vec(dir.as_slice()),
            },
            RemovalStage::Ask { dir: _ } => RemovalRequest::Ask {
                prompt: text::surround(
                    "Are you sure you want to remove project '",
                    project,
                    "'? [y/N]",
                ),
            },
            RemovalStage::Remove { dir } => RemovalRequest::Remove {
                dir: slice_to_vec(dir.as_slice()),
            },
            RemovalStage::Missing => RemovalRequest::Missing { message: not_found_text(project) },
            RemovalStage::Cancelled => RemovalRequest::Finish {
                message: "Removal cancelled.".to_owned(),
            },
            RemovalStage::Removed => RemovalRequest::Finish {
                message: text::surround("Project '", project, "' removed."),
            },
        }
    }

    /// The removal after an event that answers its request.
    pub fn advance(self, event: RemovalEvent<String>) -> (after: RemovalJob)
        requires
            fits(self.stage@, event@),
        ensures
            after.project == self.project,
            after.stage@ == next(self.stage@, event@),
    {
        let stage = match (self.stage, event) {
            (RemovalStage::Probe { dir }, RemovalEvent::Found(yes)) => if yes {
                RemovalStage::Ask { dir }
            } else {
                RemovalStage::Missing
            },
            (RemovalStage::Ask { dir }, RemovalEvent::Answer(answer)) => if text::is_confirmation(
                answer.as_str(),
            ) {
                RemovalStage::Remove { dir }
            } else {
                RemovalStage::Cancelled
            },
            (RemovalStage::Remove { dir: _ }, RemovalEvent::Removed) => RemovalStage::Removed,
            (stage, _) => stage,
        };
        RemovalJob { project: self.project, stage }
    }
}

/// Where a removal stands after the events, from its start; nowhere if one of
/// them does not answer what was waited for.
pub open spec fn after(
    home: Seq<char>,
    project: Seq<char>,
    events: Seq<RemovalEvent<Seq<char>>>,
) -> Option<RemovalStage<Seq<u8>>>
    decreases events.len(),
{
    if events.len() == 0 {
        Some(first_stage(home, project))
    } else {
        match after(home, project, events.drop_last()) {
            Some(stage) => if fits(stage, events.last()) {
                Some(next(stage, events.last()))
            } else {
                None
            },
            None => None,
        }
    }
}

/// What the events were if they led to the stage.
spec fn history(
    home: Seq<char>,
    project: Seq<char>,
    stage: RemovalStage<Seq<u8>>,
    events: Seq<RemovalEvent<Seq<char>>>,
) -> bool {
    let dir_is = |dir: Seq<u8>| archive::project_path_of(home, project) == Some(dir);
    let found = events.len() >= 1 && events[0] == RemovalEvent::<Seq<char>>::Found(true);
    let agreed = found && events.len() >= 2 && (events[1] matches RemovalEvent::Answer(answer)
        && text::confirms(answer));
    match stage {
        RemovalStage::Probe { dir } => dir_is(dir) && events.len() == 0,
        RemovalStage::Ask { dir } => dir_is(dir) && events.len() == 1 && found,
        RemovalStage::Remove { dir } => dir_is(dir) && events.len() == 2 && agreed,
        RemovalStage::Removed => events.len() == 3 && agreed,
        RemovalStage::Missing => archive::project_path_of(home, project) is None || events == seq![
            RemovalEvent::<Seq<char>>::Found(false),
        ],
        RemovalStage::Cancelled => found && events.len() == 2 && !agreed,
    }
}

proof fn lemma_history(
    home: Seq<char>,
    project: Seq<char>,
    events: Seq<RemovalEvent<Seq<char>>>,
)
    ensures
        after(home, project, events) matches Some(stage) ==> history(home, project, stage, events),
    decreases events.len(),
{
    if events.len() > 0 {
        let before = events.drop_last();
        lemma_history(home, project, before);
        assert(forall|i: int| 0 <= i < before.len() ==> before[i] == events[i]);
        if before.len() == 0 {
            assert(events =~= seq![events.last()]);
        }
    }
}

/// A directory is removed only if it lies below the archive's root, was found
/// there, and the user said yes to removing it.
pub proof fn law_removal_needs_yes(
    home: Seq<char>,
    project: Seq<char>,
    events: Seq<RemovalEvent<Seq<char>>>,
    dir: Seq<u8>,
)
    requires
        after(home, project, events) matches Some(stage) && request_of(project, stage) == (
        RemovalRequest::<Seq<u8>, Seq<char>>::Remove { dir }),
    ensures
        paths::lies_below(dir, archive::archive_root_of(home)),
        paths::names(dir).len() > paths::names(archive::archive_root_of(home)).len(),
        events.len() == 2,
        events[0] == RemovalEvent::<Seq<char>>::Found(true),
        events[1] matches RemovalEvent::Answer(answer) && text::confirms(answer),
{
    lemma_history(home, project, events);
    archive::law_projects_lie_below_root(home, project);
}

/// A project that is there is removed if the user says yes, and left if not.
pub proof fn law_yes_removes(home: Seq<char>, project: Seq<char>, answer: Seq<char>)
    requires
        archive::project_path_of(home, project) is Some,
    ensures
        after(
            home,
            project,
            seq![RemovalEvent::Found(true), RemovalEvent::Answer(answer)],
        ) == Some(
            if text::confirms(answer) {
                (RemovalStage::Remove { dir: archive::project_path_of(home, project)->0 })
            } else {
                RemovalStage::Cancelled
            },
        ),
{
    let events = seq![RemovalEvent::Found(true), RemovalEvent::Answer(answer)];
    let one = events.drop_last();
    assert(one.last() == RemovalEvent::<Seq<char>>::Found(true));
    assert(one.drop_last() == Seq::<RemovalEvent<Seq<char>>>::empty());
    assert(after(home, project, one.drop_last()) == Some(first_stage(home, project)));
    let dir = archive::project_path_of(home, project)->0;
    assert(after(home, project, one) == Some(RemovalStage::Ask { dir }));
    assert(events.last() == RemovalEvent::Answer(answer));
}

/// Every directory in the archive's root has its line in the list.
pub proof fn law_list_names_every_directory(entries: Seq<ProjectEntry>, i: int)
    requires
        0 <= i < entries.len(),
        entries[i].is_dir,
    ensures
        entry_line(entries[i]) matches Some(line) && entry_lines(entries).contains(line),
    decreases entries.len(),
{
    let before = entry_lines(entries.drop_last());
    let line = entry_line(entries[i])->0;
    if i == entries.len() - 1 {
        assert(entry_lines(entries).last() == line);
    } else {
        law_list_names_every_directory(entries.drop_last(), i);
        let k = before.index_of(line);
        assert(entry_lines(entries)[k] == line);
    }
}

/// The list says whether there is an archive, and then has one line for each
/// directory in it, in order, with its name; the directory of single files is
/// named as such, and a name that is not text is shown as unknown.
pub proof fn law_list_goes_through_the_archive(
    entries: Seq<ProjectEntry>,
    entry: ProjectEntry,
)
    ensures
        list_of(false, entries) == seq!["No projects tracked yet."@],
        list_of(true, Seq::<ProjectEntry>::empty()) == seq!["Tracked projects and files:"@],
        !entry.is_dir ==> list_of(true, entries.push(entry)) == list_of(true, entries),
        entry.is_dir && entry.name is None ==> list_of(true, entries.push(entry)) == list_of(
            true,
            entries,
        ).push(" - [Project] "@ + "unknown"@),
        entry.is_dir && entry.name is Some ==> list_of(true, entries.push(entry))
            == list_of(true, entries).push(
            if entry.name->0@ == "single_file"@ {
                " - [Single File Archive]"@
            } else {
                " - [Project] "@ + entry.name->0@
            },
        ),
{
    let longer = entries.push(entry);
    let head = seq!["Tracked projects and files:"@];
    assert(longer.drop_last() =~= entries);
    assert(longer.last() == entry);
    assert(head + Seq::<Seq<char>>::empty() =~= head);
    assert(entry_lines(Seq::<ProjectEntry>::empty()) == Seq::<Seq<char>>::empty());
    reveal_strlit("unknown");
    reveal_strlit("single_file");
    assert("unknown"@.len() == 7 && "single_file"@.len() == 11);
    match entry_line(entry) {
        Some(line) => {
            assert(head + entry_lines(entries).push(line) =~= (head + entry_lines(entries)).push(
                line,
            ));
        },
        None => {},
    }
}

/// After the events the removal asks for `request`.
pub open spec fn asks(
    home: Seq<char>,
    project: Seq<char>,
    events: Seq<RemovalEvent<Seq<char>>>,
    request: RemovalRequest<Seq<u8>, Seq<char>>,
) -> bool {
    after(home, project, events) matches Some(stage) && request_of(project, stage) == request
}

/// The course of a removal: the project's directory is looked for, the user is
/// asked, and only after a yes is that directory removed. What is not there, or is
/// no name of a project, is reported as not found.
pub proof fn law_course_of_removal(home: Seq<char>, project: Seq<char>, answer: Seq<char>)
    ensures
        ({
            let root = encode_utf8(home) + encode_utf8("/.validation_archiver"@);
            let dir = paths::joined(root, encode_utf8(project));
            let start = Seq::<RemovalEvent<Seq<char>>>::empty();
            let found = seq![RemovalEvent::Found(true)];
            let answered = seq![RemovalEvent::Found(true), RemovalEvent::Answer(answer)];
            let removed = seq![
                RemovalEvent::Found(true),
                RemovalEvent::Answer(answer),
                RemovalEvent::Removed,
            ];
            let missing = RemovalRequest::Missing {
                message: "Error: Project '"@ + project + "' not found."@,
            };
            match archive::project_path_of(home, project) {
                None => asks(home, project, start, missing),
                Some(_) => {
                    &&& asks(home, project, start, RemovalRequest::Probe { dir })
                    &&& asks(home, project, seq![RemovalEvent::Found(false)], missing)
                    &&& asks(
                        home,
                        project,
                        found,
                        RemovalRequest::Ask {
                            prompt: "Are you sure you want to remove project '"@ + project
                                + "'? [y/N]"@,
                        },
                    )
                    &&& text::confirms(answer) ==> asks(
                        home,
                        project,
                        answered,
                        RemovalRequest::Remove { dir },
                    ) && asks(
                        home,
                        project,
                        removed,
                        RemovalRequest::Finish { message: "Project '"@ + project + "' removed."@ },
                    )
                    &&& !text::confirms(answer) ==> asks(
                        home,
                        project,
                        answered,
                        RemovalRequest::Finish { message: "Removal cancelled."@ },
                    )
                },
            }
        }),
{
    let start = Seq::<RemovalEvent<Seq<char>>>::empty();
    let found = seq![RemovalEvent::<Seq<char>>::Found(true)];
    let lost = seq![RemovalEvent::<Seq<char>>::Found(false)];
    let answered = seq![RemovalEvent::Found(true), RemovalEvent::Answer(answer)];
    let removed = seq![
        RemovalEvent::Found(true),
        RemovalEvent::Answer(answer),
        RemovalEvent::Removed,
    ];
    archive::law_project_path_by_names(home, project);
    assert(found.drop_last() =~= start);
    assert(lost.drop_last() =~= start);
    assert(answered.drop_last() =~= found);
    assert(removed.drop_last() =~= answered);
    assert(after(home, project, start) == Some(first_stage(home, project)));
    assert(after(home, project, found) == if archive::project_path_of(home, project) is Some {
        Some(next(first_stage(home, project), found.last()))
    } else {
        None
    });
}

/// The contracts see everything that these values hold, as it is: nothing is left
/// out, and nothing is changed but that bytes and texts are taken as sequences.
pub proof fn law_views_show_everything(
    removal_stage: RemovalStage<Vec<u8>>,
    removal_event: RemovalEvent<String>,
    removal_request: RemovalRequest<Vec<u8>, String>,
)
    ensures
        removal_stage@ == (match removal_stage {
            RemovalStage::Probe { dir } => RemovalStage::Probe { dir: dir@ },
            RemovalStage::Ask { dir } => RemovalStage::Ask { dir: dir@ },
            RemovalStage::Remove { dir } => RemovalStage::Remove { dir: dir@ },
            RemovalStage::Missing => RemovalStage::Missing,
            RemovalStage::Cancelled => RemovalStage::Cancelled,
            RemovalStage::Removed => RemovalStage::Removed,
        }),
        removal_event@ == (match removal_event {
            RemovalEvent::Found(yes) => RemovalEvent::Found(yes),
            RemovalEvent::Answer(answer) => RemovalEvent::Answer(answer@),
            RemovalEvent::Removed => RemovalEvent::Removed,
        }),
        removal_request@ == (match removal_request {
            RemovalRequest::Probe { dir } => RemovalRequest::Probe { dir: dir@ },
            RemovalRequest::Ask { prompt } => RemovalRequest::Ask { prompt: prompt@ },
            RemovalRequest::Remove { dir } => RemovalRequest::Remove { dir: dir@ },
            RemovalRequest::Missing { message } => RemovalRequest::Missing { message: message@ },
            RemovalRequest::Finish { message } => RemovalRequest::Finish { message: message@ },
        }),
{
}

} // verus!
