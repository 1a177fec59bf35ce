//! Pruning a project: the walk through its part of the archive that finds the
//! directories with backups.
//!
//! A directory holds the backups of one file if every entry in it has the name
//! of a backup and none of them has a directory in it: a backup holds files
//! only, while below a folder of the project there are the directories of its
//! files. The oldest backups are removed; every other directory is searched.

use vstd::prelude::*;
use vstd::slice::slice_to_vec;
use vstd::utf8::*;

use crate::archive;
use crate::paths;
use crate::projects;
use crate::text;

verus! {

/// An entry of a directory.
#[derive(PartialEq, Eq, Debug)]
pub struct PruneEntry<P> {
    pub name: P,
    /// Whether it is a directory with a directory in it.
    pub holds_dir: bool,
}

/// What the walk waits for.
#[derive(PartialEq, Eq, Debug)]
pub enum PruneStage<P, T> {
    /// To hear whether there is something at `dir`, where it starts.
    Probe { dir: P },
    /// To hear about the path on top of the pending ones.
    Visit,
    /// To hear that the oldest backups in `dir` are removed.
    Rotate { dir: P },
    /// Nothing: there is no such project.
    Missing,
    /// Nothing: the system refused something.
    Failed { error: T },
}

/// What happened.
#[derive(PartialEq, Eq, Debug)]
pub enum PruneEvent<N, T> {
    /// Whether there is something at the path.
    Found(bool),
    /// The path is not that of a directory.
    NotADirectory,
    /// The entries of the directory.
    Listed(N),
    /// The directory could not be read.
    Unreadable { error: T },
    /// The oldest backups were removed, unless something failed.
    Rotated { failure: Option<T> },
}

/// What has to be done next.
#[derive(PartialEq, Eq, Debug)]
pub enum PruneRequest<P, T> {
    Probe { path: P },
    /// List `path`, if it is a directory.
    Visit { path: P },
    /// Remove the oldest backups in `dir` but for so many.
    Rotate { dir: P, max_backups: usize },
    /// Say that it is done.
    Finished { message: T },
    /// Report that there is no such project.
    Missing { message: T },
    /// Report what failed.
    Failed { message: T },
}

/// A walk through a project's part of the archive.
#[derive(PartialEq, Eq, Debug)]
pub struct PruneJob {
    pub project: String,
    pub max_backups: usize,
    /// The paths still to be visited, the next one at the end.
    pub pending: Vec<Vec<u8>>,
    pub stage: PruneStage<Vec<u8>, String>,
}

/// A walk, as the contracts speak of it.
#[verifier::ext_equal]
pub struct PruneWalk {
    pub project: Seq<char>,
    pub max_backups: usize,
    pub pending: Seq<Seq<u8>>,
    pub stage: PruneStage<Seq<u8>, Seq<char>>,
}

impl View for PruneEntry<Vec<u8>> {
    type V = PruneEntry<Seq<u8>>;

    open spec fn view(&self) -> PruneEntry<Seq<u8>> {
        PruneEntry { name: self.name@, holds_dir: self.holds_dir }
    }
}

impl View for PruneStage<Vec<u8>, String> {
    type V = PruneStage<Seq<u8>, Seq<char>>;

    open spec fn view(&self) -> PruneStage<Seq<u8>, Seq<char>> {
        match *self {
            PruneStage::Probe { dir } => PruneStage::Probe { dir: dir@ },
            PruneStage::Visit => PruneStage::Visit,
            PruneStage::Rotate { dir } => PruneStage::Rotate { dir: dir@ },
            PruneStage::Missing => PruneStage::Missing,
            PruneStage::Failed { error } => PruneStage::Failed { error: error@ },
        }
    }
}

/// The entries of a directory, as the contracts speak of them.
pub open spec fn listing(entries: Seq<PruneEntry<Vec<u8>>>) -> Seq<PruneEntry<Seq<u8>>> {
    entries.map_values(|e: PruneEntry<Vec<u8>>| e@)
}

impl View for PruneEvent<Vec<PruneEntry<Vec<u8>>>, String> {
    type V = PruneEvent<Seq<PruneEntry<Seq<u8>>>, Seq<char>>;

    open spec fn view(&self) -> PruneEvent<Seq<PruneEntry<Seq<u8>>>, Seq<char>> {
        match *self {
            PruneEvent::Found(yes) => PruneEvent::Found(yes),
            PruneEvent::NotADirectory => PruneEvent::NotADirectory,
            PruneEvent::Listed(entries) => PruneEvent::Listed(listing(entries@)),
            PruneEvent::Unreadable { error } => PruneEvent::Unreadable { error: error@ },
            PruneEvent::Rotated { failure } => PruneEvent::Rotated {
                failure: text::text_of(failure),
            },
        }
    }
}

impl View for PruneRequest<Vec<u8>, String> {
    type V = PruneRequest<Seq<u8>, Seq<char>>;

    open spec fn view(&self) -> PruneRequest<Seq<u8>, Seq<char>> {
        match *self {
            PruneRequest::Probe { path } => PruneRequest::Probe { path: path@ },
            PruneRequest::Visit { path } => PruneRequest::Visit { path: path@ },
            PruneRequest::Rotate { dir, max_backups } => PruneRequest::Rotate {
                dir: dir@,
                max_backups,
            },
            PruneRequest::Finished { message } => PruneRequest::Finished { message: message@ },
            PruneRequest::Missing { message } => PruneRequest::Missing { message: message@ },
            PruneRequest::Failed { message } => PruneRequest::Failed { message: message@ },
        }
    }
}

impl View for PruneJob {
    type V = PruneWalk;

    open spec fn view(&self) -> PruneWalk {
        PruneWalk {
            project: self.project@,
            max_backups: self.max_backups,
            pending: paths::path_texts(self.pending@),
            stage: self.stage@,
        }
    }
}

/// The entries are the backups of one file: each has the name of a backup, and
/// none has a directory in it.
pub open spec fn are_backups(entries: Seq<PruneEntry<Seq<u8>>>) -> bool {
    forall|i: int|
        0 <= i < entries.len() ==> text::names_u64((#[trigger] entries[i]).name)
            && !entries[i].holds_dir
}

/// The paths of the entries of `dir`, the last entry first.
pub open spec fn entries_reversed(
    dir: Seq<u8>,
    entries: Seq<PruneEntry<Seq<u8>>>,
) -> Seq<Seq<u8>> {
    Seq::new(entries.len(), |i: int| paths::joined(dir, entries[entries.len() - 1 - i].name))
}

/// The event answers what the walk waits for.
pub open spec fn fits(
    walk: PruneWalk,
    event: PruneEvent<Seq<PruneEntry<Seq<u8>>>, Seq<char>>,
) -> bool {
    match walk.stage {
        PruneStage::Probe { .. } => event is Found,
        PruneStage::Visit => walk.pending.len() > 0 && (event is NotADirectory || event is Listed
            || event is Unreadable),
        PruneStage::Rotate { .. } => event is Rotated,
        PruneStage::Missing | PruneStage::Failed { .. } => false,
    }
}

/// The walk after the event.
pub open spec fn next(
    walk: PruneWalk,
    event: PruneEvent<Seq<PruneEntry<Seq<u8>>>, Seq<char>>,
) -> PruneWalk {
    match event {
        PruneEvent::Found(yes) => match walk.stage {
            PruneStage::Probe { dir } => if yes {
                PruneWalk { pending: seq![dir], stage: PruneStage::Visit, ..walk }
            } else {
                PruneWalk { stage: PruneStage::Missing, ..walk }
            },
            _ => walk,
        },
        PruneEvent::NotADirectory => PruneWalk { pending: walk.pending.drop_last(), ..walk },
        PruneEvent::Listed(entries) => {
            let dir = walk.pending.last();
            let rest = walk.pending.drop_last();
            if are_backups(entries) {
                PruneWalk { pending: rest, stage: PruneStage::Rotate { dir }, ..walk }
            } else {
                PruneWalk { pending: rest + entries_reversed(dir, entries), ..walk }
            }
        },
        PruneEvent::Unreadable { error } => PruneWalk {
            stage: PruneStage::Failed { error },
            ..walk
        },
        PruneEvent::Rotated { failure } => PruneWalk {
            stage: match failure {
                None => PruneStage::Visit,
                Some(error) => PruneStage::Failed { error },
            },
            ..walk
        },
    }
}

/// What is said when a project was pruned.
pub open spec fn pruned(project: Seq<char>, max_backups: usize) -> Seq<char> {
    "Project '"@ + project + "' pruned to "@ + text::decimal(max_backups as nat) + " backups."@
}

/// What the walk asks for.
pub open spec fn request_of(walk: PruneWalk) -> PruneRequest<Seq<u8>, Seq<char>> {
    match walk.stage {
        PruneStage::Probe { dir } => PruneRequest::Probe { path: dir },
        PruneStage::Visit => if walk.pending.len() == 0 {
            PruneRequest::Finished { message: pruned(walk.project, walk.max_backups) }
        } else {
            PruneRequest::Visit { path: walk.pending.last() }
        },
        PruneStage::Rotate { dir } => PruneRequest::Rotate { dir, max_backups: walk.max_backups },
        PruneStage::Missing => PruneRequest::Missing { message: projects::not_found(walk.project) },
        PruneStage::Failed { error } => PruneRequest::Failed {
            message: "Error pruning project: "@ + error,
        },
    }
}

/// The walk at its start: a name that leads out of the archive is that of no
/// project.
pub open spec fn start(home: Seq<char>, project: Seq<char>, max_backups: usize) -> PruneWalk {
    PruneWalk {
        project,
        max_backups,
        pending: seq![],
        stage: match archive::project_path_of(home, project) {
            Some(dir) => PruneStage::Probe { dir },
            None => PruneStage::Missing,
        },
    }
}

/// Starts to prune a project in the archive of the user whose home directory is
/// `home`.
pub fn prune_project(home: &str, project: &str, max_backups: usize) -> (job: PruneJob)
    ensures
        job@ == start(home@, project@, max_backups),
{
    let stage = match archive::project_path(home, project) {
        Some(dir) => PruneStage::Probe { dir },
        None => PruneStage::Missing,
    };
    let pending: Vec<Vec<u8>> = Vec::new();
    assert(paths::path_texts(pending@) =~= seq![]);
    PruneJob { project: project.to_owned(), max_backups, pending, stage }
}

/// Whether the entries are the backups of one file.
pub fn is_file_archive(entries: &Vec<PruneEntry<Vec<u8>>>) -> (yes: bool)
    ensures
        yes == are_backups(listing(entries@)),
{
    let mut i: usize = 0;
    while i < entries.len()
        invariant
            i <= entries.len(),
            forall|j: int|
                0 <= j < i ==> text::names_u64((#[trigger] listing(entries@)[j]).name)
                    && !listing(entries@)[j].holds_dir,
        decreases entries.len() - i,
    {
        assert(listing(entries@)[i as int] == entries@[i as int]@);
        if entries[i].holds_dir || !text::is_backup_name(entries[i].name.as_slice()) {
            return false;
        }
        i += 1;
    }
    true
}

impl PruneJob {
    /// What has to be done next.
    pub fn request(&self) -> (request: PruneRequest<Vec<u8>, String>)
        ensures
            request@ == request_of(self@),
    {
        match &self.stage {
            PruneStage::Probe { dir } => PruneRequest::Probe {
                path: slice_to_vec(dir.as_slice()),
            },
            PruneStage::Visit => if self.pending.len() == 0 {
                let mut message = text::surround(
                    "Project '",
                    self.project.as_str(),
                    "' pruned to ",
                );
                text::push_decimal(&mut message, self.max_backups as u128);
                message.append(" backups.");
                PruneRequest::Finished { message }
            } else {
                let top: usize = self.pending.len() - 1;
                PruneRequest::Visit { path: slice_to_vec(self.pending[top].as_slice()) }
            },
            PruneStage::Rotate { dir } => PruneRequest::Rotate {
                dir: slice_to_vec(dir.as_slice()),
                max_backups: self.max_backups,
            },
            PruneStage::Missing => PruneRequest::Missing {
                message: projects::not_found_text(self.project.as_str()),
            },
            PruneStage::Failed { error } => {
                let mut message = "Error pruning project: ".to_owned();
                message.append(error.as_str());
                PruneRequest::Failed { message }
            },
        }
    }

    /// The walk after an event that answers its request.
    pub fn advance(self, event: PruneEvent<Vec<PruneEntry<Vec<u8>>>, String>) -> (after: PruneJob)
        requires
            fits(self@, event@),
        ensures
            after@ == next(self@, event@),
    {
        let project = self.project;
        let max_backups: usize = self.max_backups;
        let mut pending = self.pending;
        let ghost before = paths::path_texts(pending@);
        match event {
            PruneEvent::Found(yes) => match self.stage {
                PruneStage::Probe { dir } => if yes {
                    let mut pending: Vec<Vec<u8>> = Vec::new();
                    pending.push(dir);
                    assert(paths::path_texts(pending@) =~= seq![dir@]);
                    PruneJob { project, max_backups, pending, stage: PruneStage::Visit }
                } else {
                    PruneJob { project, max_backups, pending, stage: PruneStage::Missing }
                },
                stage => PruneJob { project, max_backups, pending, stage },
            },
            PruneEvent::NotADirectory => {
                let _ = pending.pop();
                assert(paths::path_texts(pending@) =~= before.drop_last());
                PruneJob { project, max_backups, pending, stage: self.stage }
            },
            PruneEvent::Listed(entries) => {
                let dir = pending.pop().unwrap();
                assert(paths::path_texts(pending@) =~= before.drop_last());
                assert(dir@ == before.last());
                if is_file_archive(&entries) {
                    let stage = PruneStage::Rotate { dir };
                    return PruneJob { project, max_backups, pending, stage };
                }
                let ghost reversed = entries_reversed(dir@, listing(entries@));
                let mut i: usize = entries.len();
                while i > 0
                    invariant
                        i <= entries.len(),
                        reversed == entries_reversed(dir@, listing(entries@)),
                        paths::path_texts(pending@) =~= before.drop_last() + reversed.take(
                            entries.len() - i,
                        ),
                    decreases i,
                {
                    i -= 1;
                    let ghost so_far = pending@;
                    pending.push(paths::join(dir.as_slice(), entries[i].name.as_slice()));
                    assert(paths::path_texts(pending@) =~= paths::path_texts(so_far).push(
                        reversed[entries.len() - 1 - i],
                    ));
                }
                assert(reversed.take(entries.len() as int) =~= reversed);
                PruneJob { project, max_backups, pending, stage: self.stage }
            },
            PruneEvent::Unreadable { error } => PruneJob {
                project,
                max_backups,
                pending,
                stage: PruneStage::Failed { error },
            },
            PruneEvent::Rotated { failure } => {
                let stage = match failure {
                    None => PruneStage::Visit,
                    Some(error) => PruneStage::Failed { error },
                };
                PruneJob { project, max_backups, pending, stage }
            },
        }
    }
}

/// What lies at a path.
pub enum Tree {
    /// Something that is not a directory.
    Other,
    /// A directory with entries, each of them with its name.
    Dir(Seq<(Seq<u8>, Tree)>),
}

/// It is a directory with a directory in it.
pub open spec fn has_dir(tree: Tree) -> bool {
    tree matches Tree::Dir(entries) && exists|i: int|
        0 <= i < entries.len() && (#[trigger] entries[i]).1 is Dir
}

/// What a listing of the entries shows.
pub open spec fn shown(entries: Seq<(Seq<u8>, Tree)>) -> Seq<PruneEntry<Seq<u8>>> {
    Seq::new(
        entries.len(),
        |i: int| PruneEntry { name: entries[i].0, holds_dir: has_dir(entries[i].1) },
    )
}

/// The directories with backups at or below `path`, in the order in which a
/// search that goes through the entries of each directory in turn comes upon
/// them.
pub open spec fn archives_at(path: Seq<u8>, tree: Tree) -> Seq<Seq<u8>>
    decreases tree, 0int,
{
    match tree {
        Tree::Other => seq![],
        Tree::Dir(entries) => if are_backups(shown(entries)) {
            seq![path]
        } else {
            archives_in(path, entries, 0)
        },
    }
}

/// The same for the entries of the directory `path` from number `k` on.
pub open spec fn archives_in(path: Seq<u8>, entries: Seq<(Seq<u8>, Tree)>, k: int) -> Seq<Seq<u8>>
    decreases entries, entries.len() - k,
{
    if k < 0 || k >= entries.len() {
        seq![]
    } else {
        archives_at(paths::joined(path, entries[k].0), entries[k].1) + archives_in(
            path,
            entries,
            k + 1,
        )
    }
}

/// The events of a search in which nothing goes wrong.
pub open spec fn search_of(tree: Tree) -> Seq<PruneEvent<Seq<PruneEntry<Seq<u8>>>, Seq<char>>>
    decreases tree, 0int,
{
    match tree {
        Tree::Other => seq![PruneEvent::NotADirectory],
        Tree::Dir(entries) => if are_backups(shown(entries)) {
            seq![PruneEvent::Listed(shown(entries)), PruneEvent::Rotated { failure: None }]
        } else {
            seq![PruneEvent::Listed(shown(entries))] + search_in(entries, 0)
        },
    }
}

/// The same for entries from number `k` on.
pub open spec fn search_in(
    entries: Seq<(Seq<u8>, Tree)>,
    k: int,
) -> Seq<PruneEvent<Seq<PruneEntry<Seq<u8>>>, Seq<char>>>
    decreases entries, entries.len() - k,
{
    if k < 0 || k >= entries.len() {
        seq![]
    } else {
        search_of(entries[k].1) + search_in(entries, k + 1)
    }
}

/// The walk after the events, and the directories that it asked to rotate on
/// the way; none if an event does not answer what was waited for.
pub open spec fn run(
    walk: PruneWalk,
    events: Seq<PruneEvent<Seq<PruneEntry<Seq<u8>>>, Seq<char>>>,
) -> Option<(PruneWalk, Seq<Seq<u8>>)>
    decreases events.len(),
{
    if events.len() == 0 {
        Some((walk, seq![]))
    } else if !fits(walk, events.first()) {
        None
    } else {
        match run(next(walk, events.first()), events.drop_first()) {
            Some((end, rotated)) => Some(
                (
                    end,
                    match request_of(walk) {
                        PruneRequest::Rotate { dir, .. } => seq![dir] + rotated,
                        _ => rotated,
                    },
                ),
            ),
            None => None,
        }
    }
}

spec fn no_events() -> Seq<PruneEvent<Seq<PruneEntry<Seq<u8>>>, Seq<char>>> {
    seq![]
}

proof fn lemma_run_joined(
    walk: PruneWalk,
    a: Seq<PruneEvent<Seq<PruneEntry<Seq<u8>>>, Seq<char>>>,
    b: Seq<PruneEvent<Seq<PruneEntry<Seq<u8>>>, Seq<char>>>,
)
    requires
        run(walk, a) matches Some((mid, _)) && run(mid, b) is Some,
    ensures
        run(walk, a) matches Some((mid, first)) && (run(mid, b) matches Some((end, second)) && run(
            walk,
            a + b,
        ) == Some((end, first + second))),
    decreases a.len(),
{
    if a.len() == 0 {
        assert(a + b == b);
        let (end, second) = run(walk, b)->0;
        assert(Seq::<Seq<u8>>::empty() + second == second);
    } else {
        let step = next(walk, a.first());
        assert((a + b).first() == a.first());
        assert((a + b).drop_first() == a.drop_first() + b);
        lemma_run_joined(step, a.drop_first(), b);
        let (mid, first) = run(step, a.drop_first())->0;
        let (end, second) = run(mid, b)->0;
        if let PruneRequest::Rotate { dir, .. } = request_of(walk) {
            assert(seq![dir] + (first + second) == (seq![dir] + first) + second);
        }
    }
}

proof fn lemma_search(
    project: Seq<char>,
    max_backups: usize,
    rest: Seq<Seq<u8>>,
    path: Seq<u8>,
    tree: Tree,
)
    ensures
        run(
            (PruneWalk {
                project,
                max_backups,
                pending: rest.push(path),
                stage: PruneStage::Visit,
            }),
            search_of(tree),
        ) == Some(
            (
                (PruneWalk { project, max_backups, pending: rest, stage: PruneStage::Visit }),
                archives_at(path, tree),
            ),
        ),
    decreases tree, 0int,
{
    let walk = PruneWalk {
        project,
        max_backups,
        pending: rest.push(path),
        stage: PruneStage::Visit,
    };
    let done = PruneWalk { project, max_backups, pending: rest, stage: PruneStage::Visit };
    assert(walk.pending.drop_last() == rest);
    assert(walk.pending.last() == path);
    let events = search_of(tree);
    match tree {
        Tree::Other => {
            assert(events.drop_first() == no_events());
            assert(next(walk, events.first()) == done);
            assert(run(done, events.drop_first()) == Some((done, Seq::<Seq<u8>>::empty())));
        },
        Tree::Dir(entries) => {
            let names = shown(entries);
            assert(events.first() == PruneEvent::<
                Seq<PruneEntry<Seq<u8>>>,
                Seq<char>,
            >::Listed(names));
            if are_backups(names) {
                let rotating = PruneWalk {
                    project,
                    max_backups,
                    pending: rest,
                    stage: PruneStage::Rotate { dir: path },
                };
                assert(next(walk, events.first()) == rotating);
                let last = events.drop_first();
                assert(last == seq![PruneEvent::<
                    Seq<PruneEntry<Seq<u8>>>,
                    Seq<char>,
                >::Rotated { failure: None }]);
                assert(last.drop_first() == no_events());
                assert(next(rotating, last.first()) == done);
                assert(run(done, last.drop_first()) == Some((done, Seq::<Seq<u8>>::empty())));
                assert(seq![path] + Seq::<Seq<u8>>::empty() == seq![path]);
                assert(run(rotating, last) == Some((done, seq![path])));
            } else {
                assert(events.drop_first() == search_in(entries, 0));
                lemma_search_in(project, max_backups, rest, path, entries, 0);
                let opened = PruneWalk {
                    project,
                    max_backups,
                    pending: rest + entries_reversed(path, names),
                    stage: PruneStage::Visit,
                };
                assert(next(walk, events.first()) == opened);
                assert(entries_reversed(path, names).take(entries.len() as int)
                    == entries_reversed(path, names));
            }
        },
    }
}

proof fn lemma_search_in(
    project: Seq<char>,
    max_backups: usize,
    rest: Seq<Seq<u8>>,
    path: Seq<u8>,
    entries: Seq<(Seq<u8>, Tree)>,
    k: int,
)
    requires
        0 <= k <= entries.len(),
    ensures
        run(
            (PruneWalk {
                project,
                max_backups,
                pending: rest + entries_reversed(path, shown(entries)).take(entries.len() - k),
                stage: PruneStage::Visit,
            }),
            search_in(entries, k),
        ) == Some(
            (
                (PruneWalk { project, max_backups, pending: rest, stage: PruneStage::Visit }),
                archives_in(path, entries, k),
            ),
        ),
    decreases entries, entries.len() - k,
{
    let all = entries_reversed(path, shown(entries));
    let n = entries.len() - k;
    let walk = PruneWalk {
        project,
        max_backups,
        pending: rest + all.take(n),
        stage: PruneStage::Visit,
    };
    if k == entries.len() {
        assert(all.take(0) == Seq::<Seq<u8>>::empty());
        assert(rest + Seq::<Seq<u8>>::empty() == rest);
    } else {
        let below = rest + all.take(n - 1);
        let here = paths::joined(path, entries[k].0);
        assert(all[n - 1] == here);
        assert(rest + all.take(n) == below.push(here));
        lemma_search(project, max_backups, below, here, entries[k].1);
        lemma_search_in(project, max_backups, rest, path, entries, k + 1);
        lemma_run_joined(walk, search_of(entries[k].1), search_in(entries, k + 1));
    }
}

/// A walk through a project that is there, in which nothing goes wrong, ends
/// with the word that it is done, and has by then asked to rotate exactly the
/// directories with backups at or below the project's directory, one after the
/// other in the order of the search.
pub proof fn law_walk_finds_all_archives(
    home: Seq<char>,
    project: Seq<char>,
    tree: Tree,
    max_backups: usize,
)
    requires
        archive::project_path_of(home, project) is Some,
    ensures
        run(
            start(home, project, max_backups),
            seq![PruneEvent::Found(true)] + search_of(tree),
        ) matches Some((end, rotated)) && request_of(end) == (PruneRequest::<
            Seq<u8>,
            Seq<char>,
        >::Finished { message: pruned(project, max_backups) }) && rotated == archives_at(
            archive::project_path_of(home, project)->0,
            tree,
        ),
{
    let dir = archive::project_path_of(home, project)->0;
    let events = seq![PruneEvent::Found(true)] + search_of(tree);
    let walk = start(home, project, max_backups);
    lemma_search(project, max_backups, seq![], dir, tree);
    assert(Seq::<Seq<u8>>::empty().push(dir) == seq![dir]);
    assert(events.first() == PruneEvent::<Seq<PruneEntry<Seq<u8>>>, Seq<char>>::Found(true));
    assert(events.drop_first() == search_of(tree));
    assert(next(walk, events.first()) == (PruneWalk {
        project,
        max_backups,
        pending: seq![dir],
        stage: PruneStage::Visit,
    }));
}

/// Pruning a project that is not there, or whose name leads out of the archive,
/// lists nothing and rotates nothing: the report that it is not found is all.
pub proof fn law_missing_project_is_reported(
    home: Seq<char>,
    project: Seq<char>,
    max_backups: usize,
)
    ensures
        ({
            let walk = start(home, project, max_backups);
            let missing = PruneRequest::<Seq<u8>, Seq<char>>::Missing {
                message: projects::not_found(project),
            };
            match archive::project_path_of(home, project) {
                Some(dir) => request_of(walk) == (PruneRequest::<Seq<u8>, Seq<char>>::Probe {
                    path: dir,
                }) && request_of(next(walk, PruneEvent::Found(false))) == missing,
                None => request_of(walk) == missing,
            }
        }),
{
}

/// A walk that fails at any point asks for nothing more but to report the
/// error.
pub proof fn law_failure_ends_walk(
    walk: PruneWalk,
    event: PruneEvent<Seq<PruneEntry<Seq<u8>>>, Seq<char>>,
    error: Seq<char>,
    later: PruneEvent<Seq<PruneEntry<Seq<u8>>>, Seq<char>>,
)
    requires
        fits(walk, event),
        event == (PruneEvent::<Seq<PruneEntry<Seq<u8>>>, Seq<char>>::Unreadable { error })
            || event == (PruneEvent::<Seq<PruneEntry<Seq<u8>>>, Seq<char>>::Rotated {
            failure: Some(error),
        }),
    ensures
        request_of(next(walk, event)) == (PruneRequest::<Seq<u8>, Seq<char>>::Failed {
            message: "Error pruning project: "@ + error,
        }),
        !fits(next(walk, event), later),
{
}

/// A folder with an entry that has a directory in it is no archive, whatever its
/// entries are called: only what is in it is pruned.
pub proof fn law_folder_is_searched(path: Seq<u8>, entries: Seq<(Seq<u8>, Tree)>, i: int)
    requires
        0 <= i < entries.len(),
        has_dir(entries[i].1),
    ensures
        archives_at(path, Tree::Dir(entries)) == archives_in(path, entries, 0),
{
    assert(shown(entries)[i].holds_dir);
}

/// A directory whose entries have the names of backups, and hold nothing but
/// files, is an archive, whether the backups in it are complete or not.
pub proof fn law_backups_are_pruned(path: Seq<u8>, entries: Seq<(Seq<u8>, Tree)>)
    requires
        forall|i: int|
            0 <= i < entries.len() ==> text::names_u64((#[trigger] entries[i]).0) && !has_dir(
                entries[i].1,
            ),
    ensures
        archives_at(path, Tree::Dir(entries)) == seq![path],
{
    assert forall|i: int| 0 <= i < shown(entries).len() implies text::names_u64(
        (#[trigger] shown(entries)[i]).name,
    ) && !shown(entries)[i].holds_dir by {
        assert(text::names_u64(entries[i].0));
    }
}

/// The entries have names that a directory can give them.
pub open spec fn is_proper(tree: Tree) -> bool
    decreases tree,
{
    match tree {
        Tree::Other => true,
        Tree::Dir(entries) => forall|i: int|
            0 <= i < entries.len() ==> #[trigger] is_named_properly(entries[i]) && is_proper(
                entries[i].1,
            ),
    }
}

/// The entry's name is not empty, holds no separator, and is neither of the two
/// that stand for directories themselves.
pub open spec fn is_named_properly(entry: (Seq<u8>, Tree)) -> bool {
    paths::is_name(entry.0) && entry.0 != paths::parent_name() && !entry.0.contains(paths::SLASH)
}

/// Everything that pruning a project asks to rotate lies below the archive's
/// root.
pub proof fn law_pruning_stays_in_archive(home: Seq<char>, project: Seq<char>, tree: Tree, i: int)
    requires
        is_proper(tree),
        archive::project_path_of(home, project) matches Some(dir) && 0 <= i < archives_at(
            dir,
            tree,
        ).len(),
    ensures
        archive::project_path_of(home, project) matches Some(dir) && paths::lies_below(
            archives_at(dir, tree)[i],
            archive::archive_root_of(home),
        ),
{
    let dir = archive::project_path_of(home, project)->0;
    archive::law_projects_lie_below_root(home, project);
    lemma_archives_lie_below(dir, tree);
    paths::law_lies_below_is_transitive(
        archives_at(dir, tree)[i],
        dir,
        archive::archive_root_of(home),
    );
}

proof fn lemma_archives_lie_below(path: Seq<u8>, tree: Tree)
    requires
        path.len() > 0,
        is_proper(tree),
    ensures
        forall|i: int|
            0 <= i < archives_at(path, tree).len() ==> paths::lies_below(
                #[trigger] archives_at(path, tree)[i],
                path,
            ),
    decreases tree, 0int,
{
    assert(paths::names(path).take(paths::names(path).len() as int) == paths::names(path));
    if let Tree::Dir(entries) = tree {
        if are_backups(shown(entries)) {
            assert(paths::lies_below(path, path));
            assert(archives_at(path, tree) == seq![path]);
        } else {
            lemma_archives_in_lie_below(path, entries, 0);
            assert(archives_at(path, tree) == archives_in(path, entries, 0));
        }
    }
}

proof fn lemma_entry_is_proper(tree: Tree, entries: Seq<(Seq<u8>, Tree)>, k: int)
    requires
        tree == Tree::Dir(entries),
        is_proper(tree),
        0 <= k < entries.len(),
    ensures
        is_named_properly(entries[k]),
        is_proper(entries[k].1),
{
    assert(tree->Dir_0 == entries);
    assert(is_named_properly(entries[k]));
}

proof fn lemma_archives_in_lie_below(path: Seq<u8>, entries: Seq<(Seq<u8>, Tree)>, k: int)
    requires
        path.len() > 0,
        is_proper(Tree::Dir(entries)),
        0 <= k <= entries.len(),
    ensures
        forall|i: int|
            0 <= i < archives_in(path, entries, k).len() ==> paths::lies_below(
                #[trigger] archives_in(path, entries, k)[i],
                path,
            ),
    decreases entries, entries.len() - k,
{
    if k < entries.len() {
        let name = entries[k].0;
        let here = paths::joined(path, name);
        lemma_entry_is_proper(Tree::Dir(entries), entries, k);
        assert forall|i: int| 0 <= i < name.len() implies #[trigger] name[i] != paths::SLASH by {
            assert(name.contains(name[i]));
        }
        paths::lemma_name_is_inner(name);
        paths::law_inner_path_lies_below(path, name);
        lemma_archives_lie_below(here, entries[k].1);
        lemma_archives_in_lie_below(path, entries, k + 1);
        let first = archives_at(here, entries[k].1);
        let rest = archives_in(path, entries, k + 1);
        let all = archives_in(path, entries, k);
        assert forall|i: int| 0 <= i < all.len() implies paths::lies_below(
            #[trigger] all[i],
            path,
        ) by {
            if i < first.len() {
                assert(all[i] == first[i]);
                paths::law_lies_below_is_transitive(first[i], here, path);
            } else {
                assert(all[i] == rest[i - first.len()]);
            }
        }
    }
}

/// A directory holds the backups of one file exactly if no entry in it is called
/// anything but a number, and no entry has a directory in it.
pub proof fn law_archive_is_told_by_its_entries(entries: Seq<PruneEntry<Seq<u8>>>)
    ensures
        are_backups(entries) <==> !exists|i: int|
            0 <= i < entries.len() && (!text::names_u64((#[trigger] entries[i]).name)
                || entries[i].holds_dir),
{
}

/// A walk keeps the limit and the project that it was started with: every
/// rotation that it asks for, whatever happened before, is to that limit, and
/// when it is done it says so of that project and that limit.
pub proof fn law_limit_is_the_users(
    home: Seq<char>,
    project: Seq<char>,
    max_backups: usize,
    events: Seq<PruneEvent<Seq<PruneEntry<Seq<u8>>>, Seq<char>>>,
)
    ensures
        run(start(home, project, max_backups), events) matches Some((end, _)) ==> {
            &&& request_of(end) matches PruneRequest::Rotate { max_backups: limit, .. } ==> limit
                == max_backups
            &&& request_of(end) matches PruneRequest::Finished { message } ==> message
                == "Project '"@ + project + "' pruned to "@ + text::decimal(max_backups as nat)
                + " backups."@
        },
{
    lemma_limit_stays(start(home, project, max_backups), events);
}

proof fn lemma_limit_stays(
    walk: PruneWalk,
    events: Seq<PruneEvent<Seq<PruneEntry<Seq<u8>>>, Seq<char>>>,
)
    ensures
        run(walk, events) matches Some((end, _)) ==> end.max_backups == walk.max_backups
            && end.project == walk.project,
    decreases events.len(),
{
    if events.len() > 0 && fits(walk, events.first()) {
        lemma_limit_stays(next(walk, events.first()), events.drop_first());
    }
}

/// The walk after the events, and everything that it asked for on the way; none
/// if an event does not answer what was waited for.
pub open spec fn course(
    walk: PruneWalk,
    events: Seq<PruneEvent<Seq<PruneEntry<Seq<u8>>>, Seq<char>>>,
) -> Option<(PruneWalk, Seq<PruneRequest<Seq<u8>, Seq<char>>>)>
    decreases events.len(),
{
    if events.len() == 0 {
        Some((walk, seq![]))
    } else if !fits(walk, events.first()) {
        None
    } else {
        match course(next(walk, events.first()), events.drop_first()) {
            Some((end, asked)) => Some((end, seq![request_of(walk)] + asked)),
            None => None,
        }
    }
}

/// The entries are called by numbers, and none has a directory in it.
pub open spec fn are_numbered_files(entries: Seq<(Seq<u8>, Tree)>) -> bool {
    forall|i: int|
        0 <= i < entries.len() ==> text::names_u64((#[trigger] entries[i]).0) && !has_dir(
            entries[i].1,
        )
}

/// What a search through the tree at `path` asks for: to visit it and, where it
/// is a directory of backups, to rotate it to the limit; where it is another
/// directory, the same for each entry in it, in order.
pub open spec fn requests_at(
    path: Seq<u8>,
    tree: Tree,
    limit: usize,
) -> Seq<PruneRequest<Seq<u8>, Seq<char>>>
    decreases tree, 0int,
{
    let visit = PruneRequest::Visit { path };
    match tree {
        Tree::Other => seq![visit],
        Tree::Dir(entries) => if are_numbered_files(entries) {
            seq![visit, PruneRequest::Rotate { dir: path, max_backups: limit }]
        } else {
            seq![visit] + requests_in(path, entries, limit, 0)
        },
    }
}

/// The same for the entries of the directory `path` from number `k` on.
pub open spec fn requests_in(
    path: Seq<u8>,
    entries: Seq<(Seq<u8>, Tree)>,
    limit: usize,
    k: int,
) -> Seq<PruneRequest<Seq<u8>, Seq<char>>>
    decreases entries, entries.len() - k,
{
    if k < 0 || k >= entries.len() {
        seq![]
    } else {
        requests_at(paths::joined(path, entries[k].0), entries[k].1, limit) + requests_in(
            path,
            entries,
            limit,
            k + 1,
        )
    }
}

proof fn lemma_numbered(entries: Seq<(Seq<u8>, Tree)>)
    ensures
        are_numbered_files(entries) == are_backups(shown(entries)),
{
    if are_backups(shown(entries)) {
        assert forall|i: int| 0 <= i < entries.len() implies text::names_u64(
            (#[trigger] entries[i]).0,
        ) && !has_dir(entries[i].1) by {
            assert(text::names_u64(shown(entries)[i].name));
        }
    }
    if are_numbered_files(entries) {
        assert forall|i: int| 0 <= i < shown(entries).len() implies text::names_u64(
            (#[trigger] shown(entries)[i]).name,
        ) && !shown(entries)[i].holds_dir by {
            assert(text::names_u64(entries[i].0));
        }
    }
}

proof fn lemma_course_joined(
    walk: PruneWalk,
    a: Seq<PruneEvent<Seq<PruneEntry<Seq<u8>>>, Seq<char>>>,
    b: Seq<PruneEvent<Seq<PruneEntry<Seq<u8>>>, Seq<char>>>,
)
    requires
        course(walk, a) matches Some((mid, _)) && course(mid, b) is Some,
    ensures
        course(walk, a) matches Some((mid, first)) && (course(mid, b) matches Some((end, second))
            && course(walk, a + b) == Some((end, first + second))),
    decreases a.len(),
{
    if a.len() == 0 {
        assert(a + b == b);
        let (end, second) = course(walk, b)->0;
        assert(Seq::<PruneRequest<Seq<u8>, Seq<char>>>::empty() + second == second);
    } else {
        let step = next(walk, a.first());
        assert((a + b).first() == a.first());
        assert((a + b).drop_first() == a.drop_first() + b);
        lemma_course_joined(step, a.drop_first(), b);
        let (mid, first) = course(step, a.drop_first())->0;
        let (end, second) = course(mid, b)->0;
        let here = seq![request_of(walk)];
        assert(here + (first + second) == (here + first) + second);
    }
}

proof fn lemma_course(
    project: Seq<char>,
    max_backups: usize,
    rest: Seq<Seq<u8>>,
    path: Seq<u8>,
    tree: Tree,
)
    ensures
        course(
            (PruneWalk {
                project,
                max_backups,
                pending: rest.push(path),
                stage: PruneStage::Visit,
            }),
            search_of(tree),
        ) == Some(
            (
                (PruneWalk { project, max_backups, pending: rest, stage: PruneStage::Visit }),
                requests_at(path, tree, max_backups),
            ),
        ),
    decreases tree, 0int,
{
    let walk = PruneWalk {
        project,
        max_backups,
        pending: rest.push(path),
        stage: PruneStage::Visit,
    };
    let done = PruneWalk { project, max_backups, pending: rest, stage: PruneStage::Visit };
    let nothing = Seq::<PruneRequest<Seq<u8>, Seq<char>>>::empty();
    let visit = PruneRequest::<Seq<u8>, Seq<char>>::Visit { path };
    assert(walk.pending.drop_last() == rest);
    assert(walk.pending.last() == path);
    assert(request_of(walk) == visit);
    let events = search_of(tree);
    match tree {
        Tree::Other => {
            assert(events.drop_first() == no_events());
            assert(next(walk, events.first()) == done);
            assert(course(done, events.drop_first()) == Some((done, nothing)));
            assert(seq![visit] + nothing == seq![visit]);
        },
        Tree::Dir(entries) => {
            let names = shown(entries);
            lemma_numbered(entries);
            assert(events.first() == PruneEvent::<
                Seq<PruneEntry<Seq<u8>>>,
                Seq<char>,
            >::Listed(names));
            if are_backups(names) {
                let rotating = PruneWalk {
                    project,
                    max_backups,
                    pending: rest,
                    stage: PruneStage::Rotate { dir: path },
                };
                let rotate = PruneRequest::<Seq<u8>, Seq<char>>::Rotate { dir: path, max_backups };
                assert(next(walk, events.first()) == rotating);
                let last = events.drop_first();
                assert(last == seq![PruneEvent::<
                    Seq<PruneEntry<Seq<u8>>>,
                    Seq<char>,
                >::Rotated { failure: None }]);
                assert(last.drop_first() == no_events());
                assert(next(rotating, last.first()) == done);
                assert(course(done, last.drop_first()) == Some((done, nothing)));
                assert(seq![rotate] + nothing == seq![rotate]);
                assert(course(rotating, last) == Some((done, seq![rotate])));
                assert(seq![visit] + seq![rotate] == seq![visit, rotate]);
            } else {
                assert(events.drop_first() == search_in(entries, 0));
                lemma_course_in(project, max_backups, rest, path, entries, 0);
                let opened = PruneWalk {
                    project,
                    max_backups,
                    pending: rest + entries_reversed(path, names),
                    stage: PruneStage::Visit,
                };
                assert(next(walk, events.first()) == opened);
                assert(entries_reversed(path, names).take(entries.len() as int)
                    == entries_reversed(path, names));
            }
        },
    }
}

proof fn lemma_course_in(
    project: Seq<char>,
    max_backups: usize,
    rest: Seq<Seq<u8>>,
    path: Seq<u8>,
    entries: Seq<(Seq<u8>, Tree)>,
    k: int,
)
    requires
        0 <= k <= entries.len(),
    ensures
        course(
            (PruneWalk {
                project,
                max_backups,
                pending: rest + entries_reversed(path, shown(entries)).take(entries.len() - k),
                stage: PruneStage::Visit,
            }),
            search_in(entries, k),
        ) == Some(
            (
                (PruneWalk { project, max_backups, pending: rest, stage: PruneStage::Visit }),
                requests_in(path, entries, max_backups, k),
            ),
        ),
    decreases entries, entries.len() - k,
{
    let all = entries_reversed(path, shown(entries));
    let n = entries.len() - k;
    let walk = PruneWalk {
        project,
        max_backups,
        pending: rest + all.take(n),
        stage: PruneStage::Visit,
    };
    if k == entries.len() {
        assert(all.take(0) == Seq::<Seq<u8>>::empty());
        assert(rest + Seq::<Seq<u8>>::empty() == rest);
    } else {
        let below = rest + all.take(n - 1);
        let here = paths::joined(path, entries[k].0);
        assert(all[n - 1] == here);
        assert(rest + all.take(n) == below.push(here));
        lemma_course(project, max_backups, below, here, entries[k].1);
        lemma_course_in(project, max_backups, rest, path, entries, k + 1);
        lemma_course_joined(walk, search_of(entries[k].1), search_in(entries, k + 1));
    }
}

/// The course of pruning a project that is there, when nothing goes wrong:
/// whether it is there, then every directory of it in turn, with a rotation to
/// the user's limit of each that holds backups, and at the end the word that it is
/// done.
pub proof fn law_course_of_pruning(
    home: Seq<char>,
    project: Seq<char>,
    tree: Tree,
    max_backups: usize,
)
    requires
        archive::project_path_of(home, project) is Some,
    ensures
        ({
            let root = encode_utf8(home) + encode_utf8("/.validation_archiver"@);
            let dir = paths::joined(root, encode_utf8(project));
            let events = seq![PruneEvent::Found(true)] + search_of(tree);
            course(start(home, project, max_backups), events) matches Some((end, asked)) && asked
                == seq![PruneRequest::Probe { path: dir }] + requests_at(dir, tree, max_backups)
                && request_of(end) == (PruneRequest::<Seq<u8>, Seq<char>>::Finished {
                message: "Project '"@ + project + "' pruned to "@ + text::decimal(
                    max_backups as nat,
                ) + " backups."@,
            })
        }),
{
    let dir = archive::project_path_of(home, project)->0;
    let events = seq![PruneEvent::Found(true)] + search_of(tree);
    let walk = start(home, project, max_backups);
    archive::law_project_path_by_names(home, project);
    lemma_course(project, max_backups, seq![], dir, tree);
    assert(Seq::<Seq<u8>>::empty().push(dir) == seq![dir]);
    assert(events.first() == PruneEvent::<Seq<PruneEntry<Seq<u8>>>, Seq<char>>::Found(true));
    assert(events.drop_first() == search_of(tree));
    assert(next(walk, events.first()) == (PruneWalk {
        project,
        max_backups,
        pending: seq![dir],
        stage: PruneStage::Visit,
    }));
}

/// A project whose name is none, or that is not there, is reported by its name,
/// and an error by its words; and nothing is asked for after that.
pub proof fn law_pruning_ends_early(
    home: Seq<char>,
    project: Seq<char>,
    max_backups: usize,
    dir: Seq<u8>,
    pending: Seq<Seq<u8>>,
    error: Seq<char>,
    later: PruneEvent<Seq<PruneEntry<Seq<u8>>>, Seq<char>>,
)
    requires
        pending.len() > 0,
    ensures
        ({
            let missing = PruneRequest::<Seq<u8>, Seq<char>>::Missing {
                message: "Error: Project '"@ + project + "' not found."@,
            };
            let failed = PruneRequest::<Seq<u8>, Seq<char>>::Failed {
                message: "Error pruning project: "@ + error,
            };
            let first = start(home, project, max_backups);
            let lost = next(first, PruneEvent::Found(false));
            let visiting = PruneWalk { project, max_backups, pending, stage: PruneStage::Visit };
            let rotating = PruneWalk {
                project,
                max_backups,
                pending,
                stage: PruneStage::Rotate { dir },
            };
            let unread = next(visiting, PruneEvent::Unreadable { error });
            let stuck = next(rotating, PruneEvent::Rotated { failure: Some(error) });
            &&& archive::project_path_of(home, project) is None ==> request_of(first) == missing
                && !fits(first, later)
            &&& archive::project_path_of(home, project) is Some ==> fits(
                first,
                PruneEvent::Found(false),
            ) && request_of(lost) == missing && !fits(lost, later)
            &&& fits(visiting, PruneEvent::Unreadable { error }) && request_of(unread) == failed
                && !fits(unread, later)
            &&& fits(rotating, PruneEvent::Rotated { failure: Some(error) }) && request_of(stuck)
                == failed && !fits(stuck, later)
        }),
{
}

/// The contracts see everything that these values hold, as it is: nothing is left
/// out, and nothing is changed but that bytes and texts are taken as sequences.
pub proof fn law_views_show_everything(
    prune_entry: PruneEntry<Vec<u8>>,
    prune_stage: PruneStage<Vec<u8>, String>,
    prune_event: PruneEvent<Vec<PruneEntry<Vec<u8>>>, String>,
    prune_request: PruneRequest<Vec<u8>, String>,
    prune_job: PruneJob,
)
    ensures
        prune_entry@ == (PruneEntry { name: prune_entry.name@, holds_dir: prune_entry.holds_dir }),
        prune_stage@ == (match prune_stage {
            PruneStage::Probe { dir } => PruneStage::Probe { dir: dir@ },
            PruneStage::Visit => PruneStage::Visit,
            PruneStage::Rotate { dir } => PruneStage::Rotate { dir: dir@ },
            PruneStage::Missing => PruneStage::Missing,
            PruneStage::Failed { error } => PruneStage::Failed { error: error@ },
        }),
        prune_event@ == (match prune_event {
            PruneEvent::Found(yes) => PruneEvent::Found(yes),
            PruneEvent::NotADirectory => PruneEvent::NotADirectory,
            PruneEvent::Listed(entries) => PruneEvent::Listed(listing(entries@)),
            PruneEvent::Unreadable { error } => PruneEvent::Unreadable { error: error@ },
            PruneEvent::Rotated { failure } => PruneEvent::Rotated {
                failure: text::text_of(failure),
            },
        }),
        prune_request@ == (match prune_request {
            PruneRequest::Probe { path } => PruneRequest::Probe { path: path@ },
            PruneRequest::Visit { path } => PruneRequest::Visit { path: path@ },
            PruneRequest::Rotate { dir, max_backups } => PruneRequest::Rotate {
                dir: dir@,
                max_backups,
            },
            PruneRequest::Finished { message } => PruneRequest::Finished { message: message@ },
            PruneRequest::Missing { message } => PruneRequest::Missing { message: message@ },
            PruneRequest::Failed { message } => PruneRequest::Failed { message: message@ },
        }),
        prune_job@ == (PruneWalk {
            project: prune_job.project@,
            max_backups: prune_job.max_backups,
            pending: paths::path_texts(prune_job.pending@),
            stage: prune_job.stage@,
        }),
{
}

/// The entries of a directory are taken one by one, with their names.
pub proof fn law_listing_keeps_the_list(entries: Seq<PruneEntry<Vec<u8>>>, i: int)
    ensures
        listing(entries).len() == entries.len(),
        0 <= i < entries.len() ==> listing(entries)[i].name == entries[i].name@
            && listing(entries)[i].holds_dir == entries[i].holds_dir,
{
}

} // verus!
