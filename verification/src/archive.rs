//! Archiving one file: where its backups lie, and the order in which a new one
//! is made.
//!
//! The backups of a file lie in a directory of its own below the archive's
//! root. Each is a directory named after the second in which it was made, with
//! the file and, in `.hash`, the hash of its content.

use vstd::prelude::*;
use vstd::slice::slice_to_vec;
use vstd::utf8::*;

use crate::paths;
use crate::text;

verus! {

/// How many backups of a file stay when a new one is made.
pub const MAX_BACKUPS: usize = 100;

/// Where a file's backups lie, and what is needed to make one.
#[derive(PartialEq, Eq, Debug)]
pub struct ArchivePlan<P> {
    /// The root of the archive.
    pub archive_root: P,
    /// The directory with the file's backups.
    pub archive_path: P,
    pub file_path: P,
    pub file_name: P,
}

/// How archiving a file ends.
#[derive(PartialEq, Eq, Debug)]
pub enum ArchiveEnd<T> {
    /// The newest backup has the same content.
    Unchanged,
    /// The file is larger than the space that is left.
    NoSpace,
    /// The system refused something.
    Failed { error: T },
    /// A backup was made at this second.
    Archived { at: u64 },
}

/// What archiving waits for.
#[derive(PartialEq, Eq, Debug)]
pub enum ArchiveStage<T> {
    FindLatest,
    Hash { latest: Option<T> },
    CreateRoot { hash: T },
    QuerySpace { hash: T },
    QuerySize { hash: T, available: u64 },
    Rotate { hash: T },
    ReadClock { hash: T },
    CreateDir { hash: T, at: u64 },
    Copy { hash: T, at: u64 },
    Rename { hash: T, at: u64 },
    WriteHash { hash: T, at: u64 },
    Ended(ArchiveEnd<T>),
}

/// What happened.
#[derive(PartialEq, Eq, Debug)]
pub enum ArchiveEvent<T> {
    /// The hash kept with the newest backup, if there is one.
    Latest(Option<T>),
    /// The hash of the file, or why it could not be read.
    Hash(Result<T, T>),
    /// How many blocks are free below the archive's root, and how large a block
    /// is, or why the system did not tell.
    Space(Result<(u64, u64), T>),
    /// The size of the file, or why the system did not tell.
    Size(Result<u64, T>),
    /// What was asked for was done, unless something failed.
    Done { failure: Option<T> },
    /// The time, in seconds from the Unix epoch.
    Clock(u64),
}

/// What has to be done next.
#[derive(PartialEq, Eq, Debug)]
pub enum ArchiveRequest<P, T> {
    /// Find the hash kept with the newest backup in `dir`.
    FindLatest { dir: P },
    /// Compute the hash of `file`.
    Hash { file: P },
    QuerySpace { path: P },
    QuerySize { file: P },
    /// Remove the oldest backups in `dir` but for so many.
    Rotate { dir: P, max_backups: usize },
    ReadClock,
    /// Create `dir` and what is missing above it.
    CreateDir { dir: P },
    Copy { from: P, to: P },
    Rename { from: P, to: P },
    /// Write `hash` to the file `path`.
    WriteHash { path: P, hash: T },
    /// Nothing: the newest backup has the same content.
    Unchanged,
    /// Report that there is not enough space.
    NoSpace { error: T },
    /// Report what failed.
    Failed { error: T },
    /// Nothing: the backup lies at `destination`.
    Archived { destination: P },
}

/// A file that is being archived.
#[derive(PartialEq, Eq, Debug)]
pub struct ArchiveJob {
    pub plan: ArchivePlan<Vec<u8>>,
    pub stage: ArchiveStage<String>,
}

impl View for ArchivePlan<Vec<u8>> {
    type V = ArchivePlan<Seq<u8>>;

    open spec fn view(&self) -> ArchivePlan<Seq<u8>> {
        ArchivePlan {
            archive_root: self.archive_root@,
            archive_path: self.archive_path@,
            file_path: self.file_path@,
            file_name: self.file_name@,
        }
    }
}

impl View for ArchiveEnd<String> {
    type V = ArchiveEnd<Seq<char>>;

    open spec fn view(&self) -> ArchiveEnd<Seq<char>> {
        match *self {
            ArchiveEnd::Unchanged => ArchiveEnd::Unchanged,
            ArchiveEnd::NoSpace => ArchiveEnd::NoSpace,
            ArchiveEnd::Failed { error } => ArchiveEnd::Failed { error: error@ },
            ArchiveEnd::Archived { at } => ArchiveEnd::Archived { at },
        }
    }
}

impl View for ArchiveStage<String> {
    type V = ArchiveStage<Seq<char>>;

    open spec fn view(&self) -> ArchiveStage<Seq<char>> {
        match *self {
            ArchiveStage::FindLatest => ArchiveStage::FindLatest,
            ArchiveStage::Hash { latest } => ArchiveStage::Hash { latest: text::text_of(latest) },
            ArchiveStage::CreateRoot { hash } => ArchiveStage::CreateRoot { hash: hash@ },
            ArchiveStage::QuerySpace { hash } => ArchiveStage::QuerySpace { hash: hash@ },
            ArchiveStage::QuerySize { hash, available } => ArchiveStage::QuerySize {
                hash: hash@,
                available,
            },
            ArchiveStage::Rotate { hash } => ArchiveStage::Rotate { hash: hash@ },
            ArchiveStage::ReadClock { hash } => ArchiveStage::ReadClock { hash: hash@ },
            ArchiveStage::CreateDir { hash, at } => ArchiveStage::CreateDir { hash: hash@, at },
            ArchiveStage::Copy { hash, at } => ArchiveStage::Copy { hash: hash@, at },
            ArchiveStage::Rename { hash, at } => ArchiveStage::Rename { hash: hash@, at },
            ArchiveStage::WriteHash { hash, at } => ArchiveStage::WriteHash { hash: hash@, at },
            ArchiveStage::Ended(end) => ArchiveStage::Ended(end@),
        }
    }
}

impl View for ArchiveEvent<String> {
    type V = ArchiveEvent<Seq<char>>;

    open spec fn view(&self) -> ArchiveEvent<Seq<char>> {
        match *self {
            ArchiveEvent::Latest(hash) => ArchiveEvent::Latest(text::text_of(hash)),
            ArchiveEvent::Hash(hash) => ArchiveEvent::Hash(
                match hash {
                    Ok(hash) => Ok(hash@),
                    Err(error) => Err(error@),
                },
            ),
            ArchiveEvent::Space(space) => ArchiveEvent::Space(
                match space {
                    Ok(space) => Ok(space),
                    Err(error) => Err(error@),
                },
            ),
            ArchiveEvent::Size(size) => ArchiveEvent::Size(
                match size {
                    Ok(size) => Ok(size),
                    Err(error) => Err(error@),
                },
            ),
            ArchiveEvent::Done { failure } => ArchiveEvent::Done {
                failure: text::text_of(failure),
            },
            ArchiveEvent::Clock(at) => ArchiveEvent::Clock(at),
        }
    }
}

impl View for ArchiveRequest<Vec<u8>, String> {
    type V = ArchiveRequest<Seq<u8>, Seq<char>>;

    open spec fn view(&self) -> ArchiveRequest<Seq<u8>, Seq<char>> {
        match *self {
            ArchiveRequest::FindLatest { dir } => ArchiveRequest::FindLatest { dir: dir@ },
            ArchiveRequest::Hash { file } => ArchiveRequest::Hash { file: file@ },
            ArchiveRequest::QuerySpace { path } => ArchiveRequest::QuerySpace { path: path@ },
            ArchiveRequest::QuerySize { file } => ArchiveRequest::QuerySize { file: file@ },
            ArchiveRequest::Rotate { dir, max_backups } => ArchiveRequest::Rotate {
                dir: dir@,
                max_backups,
            },
            ArchiveRequest::ReadClock => ArchiveRequest::ReadClock,
            ArchiveRequest::CreateDir { dir } => ArchiveRequest::CreateDir { dir: dir@ },
            ArchiveRequest::Copy { from, to } => ArchiveRequest::Copy { from: from@, to: to@ },
            ArchiveRequest::Rename { from, to } => ArchiveRequest::Rename { from: from@, to: to@ },
            ArchiveRequest::WriteHash { path, hash } => ArchiveRequest::WriteHash {
                path: path@,
                hash: hash@,
            },
            ArchiveRequest::Unchanged => ArchiveRequest::Unchanged,
            ArchiveRequest::NoSpace { error } => ArchiveRequest::NoSpace { error: error@ },
            ArchiveRequest::Failed { error } => ArchiveRequest::Failed { error: error@ },
            ArchiveRequest::Archived { destination } => ArchiveRequest::Archived {
                destination: destination@,
            },
        }
    }
}

/// The root of the archive of the user whose home directory is `home`.
pub open spec fn archive_root_of(home: Seq<char>) -> Seq<u8> {
    encode_utf8(home) + encode_utf8("/.validation_archiver"@)
}

/// The directory in the archive of the project at `project_root`.
pub open spec fn project_dir_of(home: Seq<char>, project_root: Seq<u8>) -> Seq<u8> {
    paths::joined(archive_root_of(home), paths::file_name_of(project_root)->0)
}

/// The path of a file below its project or, where it does not lie there, as it
/// is.
pub open spec fn path_in_project(file_path: Seq<u8>, project_root: Seq<u8>) -> Seq<u8> {
    match paths::relative_to(file_path, project_root) {
        Some(rest) => rest,
        None => file_path,
    }
}

/// The file's path cannot be its place below the project's directory: it starts
/// at the root, or it would lead out of the archive.
pub open spec fn is_outside(home: Seq<char>, file_path: Seq<u8>, project_root: Seq<u8>) -> bool {
    let path = path_in_project(file_path, project_root);
    paths::anchor_of(path) == paths::Anchor::Root || !paths::is_within(
        paths::joined(project_dir_of(home, project_root), path),
        archive_root_of(home),
    )
}

/// The directory, in that of a project, for files whose paths start at the root,
/// or else lead out of the archive.
pub open spec fn mark_of(rooted: bool) -> Seq<u8> {
    if rooted {
        encode_utf8(".absolute"@)
    } else {
        encode_utf8(".above"@)
    }
}

/// The place of a file's backups as seen from the project's directory: the
/// file's path there, unless that leads out of the archive.
pub open spec fn relative_path(
    home: Seq<char>,
    file_path: Seq<u8>,
    project_root: Seq<u8>,
) -> Seq<u8> {
    let path = path_in_project(file_path, project_root);
    if is_outside(home, file_path, project_root) {
        paths::marked_path(
            mark_of(paths::anchor_of(path) == paths::Anchor::Root),
            paths::names(path),
        )
    } else {
        path
    }
}

/// A path whose last name is there and is text.
pub open spec fn has_text_name(path: Seq<u8>) -> bool {
    paths::file_name_of(path) matches Some(name) && valid_utf8(name)
}

/// Where the backups of `file_path` lie as a file of the project at
/// `project_root`.
pub open spec fn plan_of(
    home: Seq<char>,
    file_path: Seq<u8>,
    project_root: Seq<u8>,
) -> ArchivePlan<Seq<u8>> {
    ArchivePlan {
        archive_root: archive_root_of(home),
        archive_path: paths::joined(
            project_dir_of(home, project_root),
            relative_path(home, file_path, project_root),
        ),
        file_path,
        file_name: paths::file_name_of(file_path)->0,
    }
}

/// The directory of the backup made at `at`.
pub open spec fn backup_dir(plan: ArchivePlan<Seq<u8>>, at: u64) -> Seq<u8> {
    paths::joined(plan.archive_path, encode_utf8(text::decimal(at as nat)))
}

/// The file in the backup made at `at`.
pub open spec fn backup_file(plan: ArchivePlan<Seq<u8>>, at: u64) -> Seq<u8> {
    paths::joined(backup_dir(plan, at), plan.file_name)
}

/// Where the file is copied to before it gets its name.
pub open spec fn partial_file(plan: ArchivePlan<Seq<u8>>, at: u64) -> Seq<u8> {
    paths::joined(backup_dir(plan, at), encode_utf8(".tmp_"@) + plan.file_name)
}

/// The file with the hash of the backup in the directory `dir`.
pub open spec fn hash_file_in(dir: Seq<u8>) -> Seq<u8> {
    paths::joined(dir, encode_utf8(".hash"@))
}

/// The event answers what the stage waits for. The space that is left is a
/// number of bytes that fits in 64 bits.
pub open spec fn fits(stage: ArchiveStage<Seq<char>>, event: ArchiveEvent<Seq<char>>) -> bool {
    match stage {
        ArchiveStage::FindLatest => event is Latest,
        ArchiveStage::Hash { .. } => event is Hash,
        ArchiveStage::QuerySpace { .. } => event matches ArchiveEvent::Space(space) && (
        space matches Ok((blocks, size)) ==> blocks * size <= u64::MAX),
        ArchiveStage::QuerySize { .. } => event is Size,
        ArchiveStage::ReadClock { .. } => event is Clock,
        ArchiveStage::Ended(_) => false,
        _ => event is Done,
    }
}

/// `then` if what was asked for was done, else the end.
pub open spec fn on_done(
    failure: Option<Seq<char>>,
    then: ArchiveStage<Seq<char>>,
) -> ArchiveStage<Seq<char>> {
    match failure {
        None => then,
        Some(error) => ArchiveStage::Ended(ArchiveEnd::Failed { error }),
    }
}

/// The stage that follows.
pub open spec fn next(
    stage: ArchiveStage<Seq<char>>,
    event: ArchiveEvent<Seq<char>>,
) -> ArchiveStage<Seq<char>> {
    match (stage, event) {
        (ArchiveStage::FindLatest, ArchiveEvent::Latest(latest)) => ArchiveStage::Hash { latest },
        (ArchiveStage::Hash { latest }, ArchiveEvent::Hash(hash)) => match hash {
            Err(error) => ArchiveStage::Ended(ArchiveEnd::Failed { error }),
            Ok(hash) => if latest == Some(hash) {
                ArchiveStage::Ended(ArchiveEnd::Unchanged)
            } else {
                ArchiveStage::CreateRoot { hash }
            },
        },
        (ArchiveStage::CreateRoot { hash }, ArchiveEvent::Done { failure }) => on_done(
            failure,
            ArchiveStage::QuerySpace { hash },
        ),
        (ArchiveStage::QuerySpace { hash }, ArchiveEvent::Space(space)) => match space {
            Err(error) => ArchiveStage::Ended(ArchiveEnd::Failed { error }),
            Ok((blocks, size)) => ArchiveStage::QuerySize {
                hash,
                available: (blocks * size) as u64,
            },
        },
        (ArchiveStage::QuerySize { hash, available }, ArchiveEvent::Size(size)) => match size {
            Err(error) => ArchiveStage::Ended(ArchiveEnd::Failed { error }),
            Ok(size) => if available < size {
                ArchiveStage::Ended(ArchiveEnd::NoSpace)
            } else {
                ArchiveStage::Rotate { hash }
            },
        },
        (ArchiveStage::Rotate { hash }, ArchiveEvent::Done { failure }) => on_done(
            failure,
            ArchiveStage::ReadClock { hash },
        ),
        (ArchiveStage::ReadClock { hash }, ArchiveEvent::Clock(at)) => ArchiveStage::CreateDir {
            hash,
            at,
        },
        (ArchiveStage::CreateDir { hash, at }, ArchiveEvent::Done { failure }) => on_done(
            failure,
            ArchiveStage::Copy { hash, at },
        ),
        (ArchiveStage::Copy { hash, at }, ArchiveEvent::Done { failure }) => on_done(
            failure,
            ArchiveStage::Rename { hash, at },
        ),
        (ArchiveStage::Rename { hash, at }, ArchiveEvent::Done { failure }) => on_done(
            failure,
            ArchiveStage::WriteHash { hash, at },
        ),
        (ArchiveStage::WriteHash { hash, at }, ArchiveEvent::Done { failure }) => on_done(
            failure,
            ArchiveStage::Ended(ArchiveEnd::Archived { at }),
        ),
        _ => stage,
    }
}

/// What a stage asks for.
pub open spec fn request_of(
    plan: ArchivePlan<Seq<u8>>,
    stage: ArchiveStage<Seq<char>>,
) -> ArchiveRequest<Seq<u8>, Seq<char>> {
    match stage {
        ArchiveStage::FindLatest => ArchiveRequest::FindLatest { dir: plan.archive_path },
        ArchiveStage::Hash { .. } => ArchiveRequest::Hash { file: plan.file_path },
        ArchiveStage::CreateRoot { .. } => ArchiveRequest::CreateDir { dir: plan.archive_root },
        ArchiveStage::QuerySpace { .. } => ArchiveRequest::QuerySpace { path: plan.archive_root },
        ArchiveStage::QuerySize { .. } => ArchiveRequest::QuerySize { file: plan.file_path },
        ArchiveStage::Rotate { .. } => ArchiveRequest::Rotate {
            dir: plan.archive_path,
            max_backups: MAX_BACKUPS,
        },
        ArchiveStage::ReadClock { .. } => ArchiveRequest::ReadClock,
        ArchiveStage::CreateDir { at, .. } => ArchiveRequest::CreateDir {
            dir: backup_dir(plan, at),
        },
        ArchiveStage::Copy { at, .. } => ArchiveRequest::Copy {
            from: plan.file_path,
            to: partial_file(plan, at),
        },
        ArchiveStage::Rename { at, .. } => ArchiveRequest::Rename {
            from: partial_file(plan, at),
            to: backup_file(plan, at),
        },
        ArchiveStage::WriteHash { hash, at } => ArchiveRequest::WriteHash {
            path: hash_file_in(backup_dir(plan, at)),
            hash,
        },
        ArchiveStage::Ended(ArchiveEnd::Unchanged) => ArchiveRequest::Unchanged,
        ArchiveStage::Ended(ArchiveEnd::NoSpace) => ArchiveRequest::NoSpace {
            error: "Insufficient disk space"@,
        },
        ArchiveStage::Ended(ArchiveEnd::Failed { error }) => ArchiveRequest::Failed { error },
        ArchiveStage::Ended(ArchiveEnd::Archived { at }) => ArchiveRequest::Archived {
            destination: backup_file(plan, at),
        },
    }
}

/// The root of the archive of the user whose home directory is `home`.
pub fn archive_root(home: &str) -> (root: Vec<u8>)
    ensures
        root@ == archive_root_of(home@),
{
    let mut root = slice_to_vec(home.as_bytes());
    let mut rest = slice_to_vec("/.validation_archiver".as_bytes());
    root.append(&mut rest);
    root
}

/// The directory of a project in the archive; none where `project` is not the
/// name of something in the archive.
pub open spec fn project_path_of(home: Seq<char>, project: Seq<char>) -> Option<Seq<u8>> {
    if paths::is_inner(encode_utf8(project)) {
        Some(paths::joined(archive_root_of(home), encode_utf8(project)))
    } else {
        None
    }
}

/// The directory of a project in the archive, if `project` is the name of
/// something in the archive.
pub fn project_path(home: &str, project: &str) -> (path: Option<Vec<u8>>)
    ensures
        path is Some <==> project_path_of(home@, project@) is Some,
        path matches Some(p) ==> Some(p@) == project_path_of(home@, project@),
{
    if !paths::inner(project.as_bytes()) {
        return None;
    }
    let root = archive_root(home);
    Some(paths::join(root.as_slice(), project.as_bytes()))
}

/// The file with the hash of the backup in the directory `dir`.
pub fn hash_file(dir: &[u8]) -> (path: Vec<u8>)
    ensures
        path@ == hash_file_in(dir@),
{
    paths::join(dir, ".hash".as_bytes())
}

fn make_backup_dir(plan: &ArchivePlan<Vec<u8>>, at: u64) -> (dir: Vec<u8>)
    ensures
        dir@ == backup_dir(plan@, at),
{
    let name = text::decimal_string(at as u128);
    paths::join(plan.archive_path.as_slice(), name.as_str().as_bytes())
}

fn make_backup_file(plan: &ArchivePlan<Vec<u8>>, at: u64) -> (file: Vec<u8>)
    ensures
        file@ == backup_file(plan@, at),
{
    let dir = make_backup_dir(plan, at);
    paths::join(dir.as_slice(), plan.file_name.as_slice())
}

fn make_partial_file(plan: &ArchivePlan<Vec<u8>>, at: u64) -> (file: Vec<u8>)
    ensures
        file@ == partial_file(plan@, at),
{
    let dir = make_backup_dir(plan, at);
    let mut name = slice_to_vec(".tmp_".as_bytes());
    let mut rest = slice_to_vec(plan.file_name.as_slice());
    name.append(&mut rest);
    paths::join(dir.as_slice(), name.as_slice())
}

/// Starts to archive `file_path` as a file of the project at `project_root`.
pub fn archive_file(home: &str, file_path: &[u8], project_root: &[u8]) -> (job: ArchiveJob)
    requires
        has_text_name(file_path@),
        has_text_name(project_root@),
    ensures
        job.plan@ == plan_of(home@, file_path@, project_root@),
        job.stage@ == ArchiveStage::<Seq<char>>::FindLatest,
{
    let root = archive_root(home);
    let file_name = paths::file_name(file_path);
    let project = paths::file_name(project_root);
    proof {
        paths::lemma_named_is_not_empty(project_root@);
    }
    let path = match paths::strip_prefix(file_path, project_root) {
        Some(rest) => rest,
        None => slice_to_vec(file_path),
    };
    let project_dir = paths::join(root.as_slice(), project.unwrap().as_slice());
    let as_given = paths::join(project_dir.as_slice(), path.as_slice());
    let archive_path = if paths::is_rooted(path.as_slice()) {
        let place = paths::marked(".absolute".as_bytes(), path.as_slice());
        paths::join(project_dir.as_slice(), place.as_slice())
    } else if paths::within(as_given.as_slice(), root.as_slice()) {
        as_given
    } else {
        let place = paths::marked(".above".as_bytes(), path.as_slice());
        paths::join(project_dir.as_slice(), place.as_slice())
    };
    ArchiveJob {
        plan: ArchivePlan {
            archive_root: root,
            archive_path,
            file_path: slice_to_vec(file_path),
            file_name: file_name.unwrap(),
        },
        stage: ArchiveStage::FindLatest,
    }
}

fn step_on(failure: Option<String>, then: ArchiveStage<String>) -> (after: ArchiveStage<String>)
    ensures
        after@ == on_done(text::text_of(failure), then@),
{
    match failure {
        None => then,
        Some(error) => ArchiveStage::Ended(ArchiveEnd::Failed { error }),
    }
}

impl ArchiveJob {
    /// What has to be done next.
    pub fn request(&self) -> (request: ArchiveRequest<Vec<u8>, String>)
        ensures
            request@ == request_of(self.plan@, self.stage@),
    {
        let plan = &self.plan;
        match &self.stage {
            ArchiveStage::FindLatest => ArchiveRequest::FindLatest {
                dir: slice_to_vec(plan.archive_path.as_slice()),
            },
            ArchiveStage::Hash { .. } => ArchiveRequest::Hash {
                file: slice_to_vec(plan.file_path.as_slice()),
            },
            ArchiveStage::CreateRoot { .. } => ArchiveRequest::CreateDir {
                dir: slice_to_vec(plan.archive_root.as_slice()),
            },
            ArchiveStage::QuerySpace { .. } => ArchiveRequest::QuerySpace {
                path: slice_to_vec(plan.archive_root.as_slice()),
            },
            ArchiveStage::QuerySize { .. } => ArchiveRequest::QuerySize {
                file: slice_to_vec(plan.file_path.as_slice()),
            },
            ArchiveStage::Rotate { .. } => ArchiveRequest::Rotate {
                dir: slice_to_vec(plan.archive_path.as_slice()),
                max_backups: MAX_BACKUPS,
            },
            ArchiveStage::ReadClock { .. } => ArchiveRequest::ReadClock,
            ArchiveStage::CreateDir { at, .. } => ArchiveRequest::CreateDir {
                dir: make_backup_dir(plan, *at),
            },
            ArchiveStage::Copy { at, .. } => ArchiveRequest::Copy {
                from: slice_to_vec(plan.file_path.as_slice()),
                to: make_partial_file(plan, *at),
            },
            ArchiveStage::Rename { at, .. } => ArchiveRequest::Rename {
                from: make_partial_file(plan, *at),
                to: make_backup_file(plan, *at),
            },
            ArchiveStage::WriteHash { hash, at } => {
                let dir = make_backup_dir(plan, *at);
                ArchiveRequest::WriteHash {
                    path: hash_file(dir.as_slice()),
                    hash: hash.clone(),
                }
            },
            ArchiveStage::Ended(ArchiveEnd::Unchanged) => ArchiveRequest::Unchanged,
            ArchiveStage::Ended(ArchiveEnd::NoSpace) => ArchiveRequest::NoSpace {
                error: "Insufficient disk space".to_owned(),
            },
            ArchiveStage::Ended(ArchiveEnd::Failed { error }) => ArchiveRequest::Failed {
                error: error.clone(),
            },
            ArchiveStage::Ended(ArchiveEnd::Archived { at }) => ArchiveRequest::Archived {
                destination: make_backup_file(plan, *at),
            },
        }
    }

    /// The job after an event that answers its request.
    pub fn advance(self, event: ArchiveEvent<String>) -> (after: ArchiveJob)
        requires
            fits(self.stage@, event@),
        ensures
            after.plan == self.plan,
            after.stage@ == next(self.stage@, event@),
    {
        let stage = match (self.stage, event) {
            (ArchiveStage::FindLatest, ArchiveEvent::Latest(latest)) => ArchiveStage::Hash {
                latest,
            },
            (ArchiveStage::Hash { latest }, ArchiveEvent::Hash(hash)) => match hash {
                Err(error) => ArchiveStage::Ended(ArchiveEnd::Failed { error }),
                Ok(hash) => {
                    let unchanged: bool = match &latest {
                        Some(kept) => *kept == hash,
                        None => false,
                    };
                    if unchanged {
                        ArchiveStage::Ended(ArchiveEnd::Unchanged)
                    } else {
                        ArchiveStage::CreateRoot { hash }
                    }
                },
            },
            (ArchiveStage::CreateRoot { hash }, ArchiveEvent::Done { failure }) => step_on(
                failure,
                ArchiveStage::QuerySpace { hash },
            ),
            (ArchiveStage::QuerySpace { hash }, ArchiveEvent::Space(space)) => match space {
                Err(error) => ArchiveStage::Ended(ArchiveEnd::Failed { error }),
                Ok((blocks, size)) => ArchiveStage::QuerySize { hash, available: blocks * size },
            },
            (ArchiveStage::QuerySize { hash, available }, ArchiveEvent::Size(size)) => match size {
                Err(error) => ArchiveStage::Ended(ArchiveEnd::Failed { error }),
                Ok(size) => if available < size {
                    ArchiveStage::Ended(ArchiveEnd::NoSpace)
                } else {
                    ArchiveStage::Rotate { hash }
                },
            },
            (ArchiveStage::Rotate { hash }, ArchiveEvent::Done { failure }) => step_on(
                failure,
                ArchiveStage::ReadClock { hash },
            ),
            (ArchiveStage::ReadClock { hash }, ArchiveEvent::Clock(at)) => ArchiveStage::CreateDir {
                hash,
                at,
            },
            (ArchiveStage::CreateDir { hash, at }, ArchiveEvent::Done { failure }) => step_on(
                failure,
                ArchiveStage::Copy { hash, at },
            ),
            (ArchiveStage::Copy { hash, at }, ArchiveEvent::Done { failure }) => step_on(
                failure,
                ArchiveStage::Rename { hash, at },
            ),
            (ArchiveStage::Rename { hash, at }, ArchiveEvent::Done { failure }) => step_on(
                failure,
                ArchiveStage::WriteHash { hash, at },
            ),
            (ArchiveStage::WriteHash { hash, at }, ArchiveEvent::Done { failure }) => step_on(
                failure,
                ArchiveStage::Ended(ArchiveEnd::Archived { at }),
            ),
            (stage, _) => stage,
        };
        ArchiveJob { plan: self.plan, stage }
    }
}

/// Where archiving stands after the events, from its start; nowhere if one of
/// them does not answer what was waited for.
pub open spec fn after(events: Seq<ArchiveEvent<Seq<char>>>) -> Option<ArchiveStage<Seq<char>>>
    decreases events.len(),
{
    if events.len() == 0 {
        Some(ArchiveStage::FindLatest)
    } else {
        match after(events.drop_last()) {
            Some(stage) => if fits(stage, events.last()) {
                Some(next(stage, events.last()))
            } else {
                None
            },
            None => None,
        }
    }
}

/// The newest backup was found to differ from the file, whose hash is `hash`.
pub open spec fn found_changed(events: Seq<ArchiveEvent<Seq<char>>>, hash: Seq<char>) -> bool {
    &&& events.len() >= 2
    &&& events[0] matches ArchiveEvent::Latest(latest) && latest != Some(hash)
    &&& events[1] == ArchiveEvent::Hash(Ok(hash))
}

/// The file was found to fit in the space that is left.
pub open spec fn found_room(events: Seq<ArchiveEvent<Seq<char>>>) -> bool {
    &&& events.len() >= 5
    &&& events[3] matches ArchiveEvent::Space(Ok((blocks, size))) && (
    events[4] matches ArchiveEvent::Size(Ok(needed)) && needed <= blocks * size)
}

/// Archiving has ended with a backup.
pub open spec fn is_archived(stage: ArchiveStage<Seq<char>>) -> bool {
    stage matches ArchiveStage::Ended(ArchiveEnd::Archived { .. })
}

/// The stages in which the archive is changed, and the end that follows them.
pub open spec fn touches_archive(stage: ArchiveStage<Seq<char>>) -> bool {
    match stage {
        ArchiveStage::CreateRoot { .. }
        | ArchiveStage::Rotate { .. }
        | ArchiveStage::CreateDir { .. }
        | ArchiveStage::Copy { .. }
        | ArchiveStage::Rename { .. }
        | ArchiveStage::WriteHash { .. } => true,
        ArchiveStage::Ended(ArchiveEnd::Archived { .. }) => true,
        _ => false,
    }
}

/// What the events were if they led to the stage.
spec fn history(
    stage: ArchiveStage<Seq<char>>,
    events: Seq<ArchiveEvent<Seq<char>>>,
) -> bool {
    let done = ArchiveEvent::<Seq<char>>::Done { failure: None };
    let rooted = events.len() >= 3 && events[2] == done;
    let made = |n: int, at: u64|
        events.len() == n && found_room(events) && rooted && events[5] == done && events[6]
            == ArchiveEvent::<Seq<char>>::Clock(at) && forall|i: int|
            7 <= i < n ==> events[i] == done;
    match stage {
        ArchiveStage::FindLatest => events.len() == 0,
        ArchiveStage::Hash { latest } => events.len() == 1 && events[0] == ArchiveEvent::Latest(
            latest,
        ),
        ArchiveStage::CreateRoot { hash } => events.len() == 2 && found_changed(events, hash),
        ArchiveStage::QuerySpace { hash } => events.len() == 3 && found_changed(events, hash)
            && rooted,
        ArchiveStage::QuerySize { hash, available } => events.len() == 4 && found_changed(
            events,
            hash,
        ) && rooted && (events[3] matches ArchiveEvent::Space(Ok((blocks, size))) && blocks * size
            == available),
        ArchiveStage::Rotate { hash } => events.len() == 5 && found_changed(events, hash) && rooted
            && found_room(events),
        ArchiveStage::ReadClock { hash } => events.len() == 6 && found_changed(events, hash)
            && rooted && found_room(events) && events[5] == done,
        ArchiveStage::CreateDir { hash, at } => found_changed(events, hash) && made(7, at),
        ArchiveStage::Copy { hash, at } => found_changed(events, hash) && made(8, at),
        ArchiveStage::Rename { hash, at } => found_changed(events, hash) && made(9, at),
        ArchiveStage::WriteHash { hash, at } => found_changed(events, hash) && made(10, at),
        ArchiveStage::Ended(ArchiveEnd::Archived { at }) => made(11, at) && (after(
            events.drop_last(),
        ) matches Some(ArchiveStage::WriteHash { hash, at: t }) && t == at && found_changed(
            events,
            hash,
        )),
        ArchiveStage::Ended(_) => true,
    }
}

proof fn lemma_history(events: Seq<ArchiveEvent<Seq<char>>>)
    ensures
        after(events) matches Some(stage) ==> history(stage, events),
    decreases events.len(),
{
    if events.len() > 0 {
        let before = events.drop_last();
        lemma_history(before);
        assert(forall|i: int| 0 <= i < before.len() ==> before[i] == events[i]);
    }
}

/// The archive is changed only after the newest backup was found to differ from
/// the file and, but for creating the archive's root where it is missing, only
/// after the file was found to fit in the space that is left.
pub proof fn law_only_changed_files_are_archived(events: Seq<ArchiveEvent<Seq<char>>>)
    requires
        after(events) matches Some(stage) && touches_archive(stage),
    ensures
        exists|hash: Seq<char>| found_changed(events, hash),
        after(events)->0 is CreateRoot || found_room(events),
{
    lemma_history(events);
    match after(events)->0 {
        ArchiveStage::CreateRoot { hash }
        | ArchiveStage::Rotate { hash }
        | ArchiveStage::CreateDir { hash, .. }
        | ArchiveStage::Copy { hash, .. }
        | ArchiveStage::Rename { hash, .. }
        | ArchiveStage::WriteHash { hash, .. } => {
            assert(found_changed(events, hash));
        },
        _ => {
            if let Some(ArchiveStage::WriteHash { hash, at }) = after(events.drop_last()) {
                assert(found_changed(events, hash));
            }
        },
    }
}

proof fn lemma_ended_is_last(events: Seq<ArchiveEvent<Seq<char>>>, n: int)
    requires
        after(events).is_some(),
        0 <= n <= events.len(),
    ensures
        after(events.take(n)).is_some(),
        n < events.len() ==> !(after(events.take(n)) matches Some(ArchiveStage::Ended(_))),
    decreases events.len(),
{
    if n == events.len() {
        assert(events.take(n) == events);
    } else {
        assert(events.take(n) == events.drop_last().take(n));
        lemma_ended_is_last(events.drop_last(), n);
        if n == events.len() - 1 {
            assert(events.take(n) == events.drop_last());
        }
    }
}

/// A file whose hash is the one kept with the newest backup is left alone:
/// archiving ends after the two hashes are known.
pub proof fn law_unchanged_file_is_left_alone(
    events: Seq<ArchiveEvent<Seq<char>>>,
    hash: Seq<char>,
)
    requires
        after(events).is_some(),
        events.len() >= 2,
        events[0] == ArchiveEvent::Latest(Some(hash)),
        events[1] == ArchiveEvent::Hash(Ok(hash)),
    ensures
        events.len() == 2,
        after(events) == Some(ArchiveStage::<Seq<char>>::Ended(ArchiveEnd::Unchanged)),
{
    let two = events.take(2);
    let one = two.drop_last();
    lemma_ended_is_last(events, 2);
    assert(two.last() == events[1]);
    assert(one.last() == events[0]);
    assert(one.drop_last() == Seq::<ArchiveEvent<Seq<char>>>::empty());
    assert(after(one.drop_last()) == Some(ArchiveStage::<Seq<char>>::FindLatest));
    assert(after(one) == Some(ArchiveStage::Hash { latest: Some(hash) }));
    assert(after(two) == Some(ArchiveStage::<Seq<char>>::Ended(ArchiveEnd::Unchanged)));
    if events.len() == 2 {
        assert(two == events);
    }
}

/// A backup that was made keeps the hash of what was archived: what is written
/// last is the hash that the file was found to have, and a later run that reads
/// it back as the newest one, and finds the file with the same hash, makes no
/// other backup.
pub proof fn law_archived_file_is_recognised(
    first: Seq<ArchiveEvent<Seq<char>>>,
    plan: ArchivePlan<Seq<u8>>,
    written: Seq<char>,
    hash: Seq<char>,
    later: Seq<ArchiveEvent<Seq<char>>>,
)
    requires
        after(first) matches Some(stage) && is_archived(stage),
        after(first.drop_last()) matches Some(stage) && (request_of(plan, stage)
            matches ArchiveRequest::WriteHash { hash: h, .. } && h == written),
        first[1] == ArchiveEvent::Hash(Ok(hash)),
        after(later) is Some,
        later.len() >= 2,
        later[0] == ArchiveEvent::Latest(Some(written)),
        later[1] == ArchiveEvent::Hash(Ok(hash)),
    ensures
        written == hash,
        after(later) == Some(ArchiveStage::<Seq<char>>::Ended(ArchiveEnd::Unchanged)),
{
    lemma_history(first);
    law_unchanged_file_is_left_alone(later, hash);
}

/// A backup that was made went through every step, each of them done, and the
/// file in it got its name only after it was copied whole under another.
pub proof fn law_backup_is_whole(
    events: Seq<ArchiveEvent<Seq<char>>>,
    plan: ArchivePlan<Seq<u8>>,
    at: u64,
)
    requires
        after(events) == Some(
            ArchiveStage::<Seq<char>>::Ended((ArchiveEnd::Archived { at })),
        ),
        plan.archive_path.len() > 0,
        plan.file_name.len() > 0,
        plan.file_name[0] != paths::SLASH,
    ensures
        events.len() == 11,
        events[6] == ArchiveEvent::<Seq<char>>::Clock(at),
        forall|i: int|
            7 <= i < 11 ==> #[trigger] events[i] == (ArchiveEvent::<Seq<char>>::Done {
                failure: None,
            }),
        after(events.take(8)) matches Some(copy) && request_of(plan, copy) == (
        ArchiveRequest::<Seq<u8>, Seq<char>>::Copy {
            from: plan.file_path,
            to: partial_file(plan, at),
        }),
        after(events.take(9)) matches Some(rename) && request_of(plan, rename) == (
        ArchiveRequest::<Seq<u8>, Seq<char>>::Rename {
            from: partial_file(plan, at),
            to: backup_file(plan, at),
        }),
        partial_file(plan, at) != backup_file(plan, at),
{
    lemma_history(events);
    lemma_ended_is_last(events, 8);
    lemma_ended_is_last(events, 9);
    lemma_history(events.take(8));
    lemma_history(events.take(9));
    assert(events.take(8)[6] == events[6]);
    assert(events.take(9)[6] == events[6]);
    reveal_strlit(".tmp_");
    is_ascii_chars_encode_utf8(".tmp_"@);
    let prefix = encode_utf8(".tmp_"@);
    assert(prefix.len() == 5);
    assert(prefix[0] == 46);
    assert((prefix + plan.file_name)[0] == 46);
    assert(partial_file(plan, at).len() == backup_file(plan, at).len() + 5);
}

/// The directory of a backup is named after the second in which it was made,
/// in the form by which pruning recognises a backup.
pub proof fn law_backup_is_recognised(plan: ArchivePlan<Seq<u8>>, at: u64)
    requires
        plan.archive_path.len() > 0,
    ensures
        paths::file_name_of(backup_dir(plan, at)) == Some(encode_utf8(text::decimal(at as nat))),
        text::names_u64(encode_utf8(text::decimal(at as nat))),
{
    let name = encode_utf8(text::decimal(at as nat));
    text::law_decimal_is_backup_name(at);
    text::lemma_decimal_bytes(at as nat);
    assert forall|i: int| 0 <= i < name.len() implies #[trigger] name[i] != paths::SLASH && name[i]
        != paths::DOT by {}
    paths::lemma_joined_file_name(plan.archive_path, name);
}

/// A changed file that fits in the space that is left ends up in the archive
/// when everything that is asked for is done, whatever was there before: the
/// archive's root itself is created on the way.
pub proof fn law_changed_file_is_archived(
    latest: Option<Seq<char>>,
    hash: Seq<char>,
    blocks: u64,
    size: u64,
    needed: u64,
    at: u64,
    plan: ArchivePlan<Seq<u8>>,
)
    requires
        latest != Some(hash),
        needed <= blocks * size <= u64::MAX,
    ensures
        after(all_done(latest, hash, blocks, size, needed, at)) == Some(
            ArchiveStage::<Seq<char>>::Ended((ArchiveEnd::Archived { at })),
        ),
        after(all_done(latest, hash, blocks, size, needed, at).take(2)) matches Some(stage)
            && request_of(plan, stage) == (ArchiveRequest::<Seq<u8>, Seq<char>>::CreateDir {
            dir: plan.archive_root,
        }),
{
    let events = all_done(latest, hash, blocks, size, needed, at);
    lemma_step(events, 0);
    lemma_step(events, 1);
    lemma_step(events, 2);
    lemma_step(events, 3);
    lemma_step(events, 4);
    lemma_step(events, 5);
    lemma_step(events, 6);
    lemma_step(events, 7);
    lemma_step(events, 8);
    lemma_step(events, 9);
    lemma_step(events, 10);
    assert(events.take(0) == Seq::<ArchiveEvent<Seq<char>>>::empty());
    assert(events.take(11) == events);
}

/// What the system said when it refused something, if it did.
pub open spec fn refusal(event: ArchiveEvent<Seq<char>>) -> Option<Seq<char>> {
    match event {
        ArchiveEvent::Hash(Err(error)) => Some(error),
        ArchiveEvent::Space(Err(error)) => Some(error),
        ArchiveEvent::Size(Err(error)) => Some(error),
        ArchiveEvent::Done { failure } => failure,
        _ => None,
    }
}

/// Whatever the system refuses, its error is reported and archiving ends there;
/// where it refuses nothing, no such report is made.
pub proof fn law_refusal_is_reported(
    plan: ArchivePlan<Seq<u8>>,
    stage: ArchiveStage<Seq<char>>,
    event: ArchiveEvent<Seq<char>>,
    later: ArchiveEvent<Seq<char>>,
)
    requires
        fits(stage, event),
    ensures
        match refusal(event) {
            Some(error) => request_of(plan, next(stage, event)) == (ArchiveRequest::<
                Seq<u8>,
                Seq<char>,
            >::Failed { error }) && !fits(next(stage, event), later),
            None => !(request_of(plan, next(stage, event)) is Failed),
        },
{
}

/// The events of a run in which everything that is asked for is done.
pub open spec fn all_done(
    latest: Option<Seq<char>>,
    hash: Seq<char>,
    blocks: u64,
    size: u64,
    needed: u64,
    at: u64,
) -> Seq<ArchiveEvent<Seq<char>>> {
    seq![
        ArchiveEvent::Latest(latest),
        ArchiveEvent::Hash(Ok(hash)),
        ArchiveEvent::Done { failure: None },
        ArchiveEvent::Space(Ok((blocks, size))),
        ArchiveEvent::Size(Ok(needed)),
        ArchiveEvent::Done { failure: None },
        ArchiveEvent::Clock(at),
        ArchiveEvent::Done { failure: None },
        ArchiveEvent::Done { failure: None },
        ArchiveEvent::Done { failure: None },
        ArchiveEvent::Done { failure: None },
    ]
}

proof fn lemma_step(events: Seq<ArchiveEvent<Seq<char>>>, n: int)
    requires
        0 <= n < events.len(),
    ensures
        after(events.take(n + 1)) == match after(events.take(n)) {
            Some(stage) => if fits(stage, events[n]) {
                Some(next(stage, events[n]))
            } else {
                None
            },
            None => None,
        },
{
    assert(events.take(n + 1).drop_last() == events.take(n));
    assert(events.take(n + 1).last() == events[n]);
}

/// A file of a watched directory is archived under the project's name, at the
/// place that it has in the directory.
pub proof fn law_watched_file_keeps_its_place(home: Seq<char>, project_root: Seq<u8>, rel: Seq<u8>)
    requires
        has_text_name(project_root),
        paths::is_tidy(rel),
        paths::is_within(
            paths::joined(project_dir_of(home, project_root), rel),
            archive_root_of(home),
        ),
    ensures
        plan_of(home, paths::joined(project_root, rel), project_root).archive_path
            == paths::joined(project_dir_of(home, project_root), rel),
{
    paths::lemma_named_is_not_empty(project_root);
    paths::law_join_then_strip(project_root, rel);
    paths::lemma_tidy_is_relative(rel);
}

/// Different files of a watched directory do not share their backups.
pub proof fn law_watched_files_are_kept_apart(
    home: Seq<char>,
    project_root: Seq<u8>,
    rel: Seq<u8>,
    other: Seq<u8>,
)
    requires
        has_text_name(project_root),
        paths::is_tidy(rel),
        paths::is_tidy(other),
        !paths::names(rel).contains(paths::parent_name()),
        !paths::names(other).contains(paths::parent_name()),
        paths::place_of(
            plan_of(home, paths::joined(project_root, rel), project_root).archive_path,
        ) == paths::place_of(
            plan_of(home, paths::joined(project_root, other), project_root).archive_path,
        ),
    ensures
        paths::names(rel) == paths::names(other),
{
    lemma_archive_root(home);
    let project = project_dir_of(home, project_root);
    paths::lemma_tidy_is_relative(rel);
    paths::lemma_tidy_is_relative(other);
    lemma_forward_path_is_inside(home, project_root, rel);
    lemma_forward_path_is_inside(home, project_root, other);
    law_watched_file_keeps_its_place(home, project_root, rel);
    law_watched_file_keeps_its_place(home, project_root, other);
    paths::lemma_joined_place(project, rel);
    paths::lemma_joined_place(project, other);
    lemma_same_rest(paths::place_of(project), paths::names(rel), paths::names(other));
}

proof fn lemma_same_rest(front: Seq<Seq<u8>>, a: Seq<Seq<u8>>, b: Seq<Seq<u8>>)
    requires
        front + a == front + b,
    ensures
        a == b,
{
    assert((front + a).skip(front.len() as int) =~= a);
    assert((front + b).skip(front.len() as int) =~= b);
}

/// The project's directory is the archive's root and one name more.
proof fn lemma_project_dir(home: Seq<char>, project_root: Seq<u8>)
    requires
        has_text_name(project_root),
    ensures
        project_dir_of(home, project_root).len() > 0,
        paths::lies_below(project_dir_of(home, project_root), archive_root_of(home)),
        paths::is_within(project_dir_of(home, project_root), archive_root_of(home)),
        paths::place_of(project_dir_of(home, project_root)) == paths::place_of(
            archive_root_of(home),
        ).push(paths::file_name_of(project_root)->0),
        paths::anchor_of(project_dir_of(home, project_root)) == paths::anchor_of(
            archive_root_of(home),
        ),
        paths::file_name_of(project_root)->0 != paths::parent_name(),
{
    let root = archive_root_of(home);
    let name = paths::file_name_of(project_root)->0;
    lemma_archive_root(home);
    paths::lemma_file_name_is_inner(project_root);
    paths::lemma_file_name_alone(project_root);
    paths::law_inner_path_lies_below(root, name);
    paths::lemma_joined_place(root, name);
    assert(paths::place_of(root) + seq![name] =~= paths::place_of(root).push(name));
    assert(paths::place_of(root) =~= paths::place_of(root).take(
        paths::place_of(root).len() as int,
    ));
    paths::law_inner_path_stays_within(root, name, root);
}

/// A path that neither starts at the root nor goes back stays in the archive.
proof fn lemma_forward_path_is_inside(home: Seq<char>, project_root: Seq<u8>, path: Seq<u8>)
    requires
        has_text_name(project_root),
        paths::anchor_of(path) != paths::Anchor::Root,
        !paths::names(path).contains(paths::parent_name()),
    ensures
        paths::is_within(
            paths::joined(project_dir_of(home, project_root), path),
            archive_root_of(home),
        ),
        paths::place_of(paths::joined(project_dir_of(home, project_root), path))
            == paths::place_of(project_dir_of(home, project_root)) + paths::names(path),
{
    lemma_project_dir(home, project_root);
    paths::law_inner_path_stays_within(
        project_dir_of(home, project_root),
        path,
        archive_root_of(home),
    );
    paths::lemma_joined_place(project_dir_of(home, project_root), path);
}

/// A path that goes back once, before its first name, stays in the archive.
proof fn lemma_path_to_neighbour_is_inside(home: Seq<char>, project_root: Seq<u8>, path: Seq<u8>)
    requires
        has_text_name(project_root),
        paths::anchor_of(path) != paths::Anchor::Root,
        goes_back_once(path),
    ensures
        paths::is_within(
            paths::joined(project_dir_of(home, project_root), path),
            archive_root_of(home),
        ),
        paths::place_of(paths::joined(project_dir_of(home, project_root), path))
            == paths::place_of(archive_root_of(home)) + paths::names(path).skip(1),
{
    let root = archive_root_of(home);
    let project = project_dir_of(home, project_root);
    let rooted = paths::anchor_of(root) == paths::Anchor::Root;
    let list = paths::names(path);
    let up = seq![paths::parent_name()];
    let rest = list.skip(1);
    lemma_project_dir(home, project_root);
    paths::lemma_joined_place(project, path);
    assert(list =~= up + rest);
    paths::lemma_resolved_in_turn(paths::place_of(project), rooted, up, rest);
    assert(up.drop_last() =~= Seq::<Seq<u8>>::empty());
    assert(paths::resolved(paths::place_of(project), rooted, up.drop_last())
        == paths::place_of(project));
    assert(paths::place_of(project).drop_last() =~= paths::place_of(root));
    assert(paths::resolved(paths::place_of(project), rooted, up) == paths::place_of(root));
    paths::lemma_resolved_forward(paths::place_of(root), rooted, rest);
    let place = paths::place_of(paths::joined(project, path));
    let n = paths::place_of(root).len() as int;
    assert(paths::place_of(root) =~= place.take(n));
    assert forall|i: int| n <= i < place.len() implies #[trigger] place[i]
        != paths::parent_name() by {
        assert(place[i] == rest[i - n]);
        assert(rest.contains(place[i]));
    }
}

/// A path whose first name goes back, and no other.
pub open spec fn goes_back_once(path: Seq<u8>) -> bool {
    &&& paths::names(path).len() >= 2
    &&& paths::names(path)[0] == paths::parent_name()
    &&& !paths::names(path).skip(1).contains(paths::parent_name())
}

/// A file whose path does not start at the root, and does not lead out of the
/// archive, is archived where that path leads from the project's directory.
pub proof fn law_file_keeps_its_place(home: Seq<char>, file_path: Seq<u8>, project_root: Seq<u8>)
    requires
        ({
            let path = path_in_project(file_path, project_root);
            paths::anchor_of(path) != paths::Anchor::Root && paths::is_within(
                paths::joined(project_dir_of(home, project_root), path),
                archive_root_of(home),
            )
        }),
    ensures
        plan_of(home, file_path, project_root).archive_path == paths::joined(
            project_dir_of(home, project_root),
            path_in_project(file_path, project_root),
        ),
{
}

/// A single file that is given by a path which does not start at the root, and
/// goes back at most once, before its first name, is archived where that path
/// leads from the directory of single files.
pub proof fn law_single_file_keeps_its_place(home: Seq<char>, file_path: Seq<u8>)
    requires
        paths::anchor_of(file_path) != paths::Anchor::Root,
        paths::relative_to(file_path, single_file()) is None,
        !paths::names(file_path).contains(paths::parent_name()) || goes_back_once(file_path),
    ensures
        plan_of(home, file_path, single_file()).archive_path == paths::joined(
            paths::joined(archive_root_of(home), single_file()),
            file_path,
        ),
{
    lemma_single_file();
    if goes_back_once(file_path) {
        lemma_path_to_neighbour_is_inside(home, single_file(), file_path);
    } else {
        lemma_forward_path_is_inside(home, single_file(), file_path);
    }
}

/// The path is one of those whose places can be told apart by themselves: it
/// does not start at the root and either never goes back, and does not start
/// with the name of a directory for files from outside, or goes back once,
/// before its first name, and not to return to the project's directory.
pub open spec fn is_plain(path: Seq<u8>, project: Seq<u8>) -> bool {
    let list = paths::names(path);
    &&& paths::anchor_of(path) != paths::Anchor::Root
    &&& if goes_back_once(path) {
        list[1] != project
    } else {
        !list.contains(paths::parent_name()) && (list.len() > 0 ==> list[0] != mark_of(true)
            && list[0] != mark_of(false))
    }
}

/// Two files of a project share their backups only if they are given by the
/// same names from the same start, that is, if they are the same file. This
/// holds of files whose paths start at the root or lead out of the archive, and
/// of those whose paths are plain.
pub proof fn law_files_are_kept_apart(
    home: Seq<char>,
    project_root: Seq<u8>,
    file: Seq<u8>,
    other: Seq<u8>,
)
    requires
        has_text_name(project_root),
        ({
            let project = paths::file_name_of(project_root)->0;
            &&& is_outside(home, file, project_root) || is_plain(
                path_in_project(file, project_root),
                project,
            )
            &&& is_outside(home, other, project_root) || is_plain(
                path_in_project(other, project_root),
                project,
            )
        }),
        paths::place_of(plan_of(home, file, project_root).archive_path) == paths::place_of(
            plan_of(home, other, project_root).archive_path,
        ),
    ensures
        ({
            let a = path_in_project(file, project_root);
            let b = path_in_project(other, project_root);
            &&& paths::names(a) == paths::names(b)
            &&& (paths::anchor_of(a) == paths::Anchor::Root) == (paths::anchor_of(b)
                == paths::Anchor::Root)
        }),
{
    let a = path_in_project(file, project_root);
    let b = path_in_project(other, project_root);
    let root = paths::place_of(archive_root_of(home));
    let project = paths::file_name_of(project_root)->0;
    lemma_project_dir(home, project_root);
    lemma_place(home, project_root, file);
    lemma_place(home, project_root, other);
    lemma_same_rest(
        root,
        place_from_root(home, project_root, file),
        place_from_root(home, project_root, other),
    );
    let x = place_from_root(home, project_root, file);
    let y = place_from_root(home, project_root, other);
    lemma_marks();
    let out_a = is_outside(home, file, project_root);
    let out_b = is_outside(home, other, project_root);
    if !out_a && goes_back_once(a) {
        assert(x[0] == paths::names(a)[1]);
        assert(!out_b && goes_back_once(b)) by {
            if out_b || !goes_back_once(b) {
                assert(y[0] == project);
            }
        }
        assert(paths::names(a) =~= seq![paths::parent_name()] + x);
        assert(paths::names(b) =~= seq![paths::parent_name()] + y);
    } else {
        assert(x[0] == project);
        if !out_b && goes_back_once(b) {
            assert(y[0] == paths::names(b)[1]);
        }
        assert(y.skip(1) == x.skip(1));
        if out_a {
            assert(x[1] == mark_of(paths::anchor_of(a) == paths::Anchor::Root));
            if !out_b {
                assert(y.skip(1) =~= paths::names(b));
                assert(paths::names(b)[0] == y[1]);
            } else {
                assert(y[1] == mark_of(paths::anchor_of(b) == paths::Anchor::Root));
                assert(x.skip(2) =~= kept_names(paths::names(a)));
                assert(y.skip(2) =~= kept_names(paths::names(b)));
                lemma_kept_names_agree(paths::names(a), paths::names(b), x.skip(2));
            }
        } else {
            assert(x.skip(1) =~= paths::names(a));
            if out_b {
                assert(y[1] == mark_of(paths::anchor_of(b) == paths::Anchor::Root));
                assert(paths::names(a)[0] == x[1]);
            } else {
                assert(y.skip(1) =~= paths::names(b));
            }
        }
    }
}

spec fn kept_names(list: Seq<Seq<u8>>) -> Seq<Seq<u8>> {
    list.map_values(|name: Seq<u8>| paths::kept_name(name))
}

/// The names from the archive's root to the place of a file's backups.
spec fn place_from_root(home: Seq<char>, project_root: Seq<u8>, file: Seq<u8>) -> Seq<Seq<u8>> {
    let path = path_in_project(file, project_root);
    let project = paths::file_name_of(project_root)->0;
    if is_outside(home, file, project_root) {
        seq![project, mark_of(paths::anchor_of(path) == paths::Anchor::Root)] + kept_names(
            paths::names(path),
        )
    } else if goes_back_once(path) {
        paths::names(path).skip(1)
    } else {
        seq![project] + paths::names(path)
    }
}

proof fn lemma_kept_names_agree(a: Seq<Seq<u8>>, b: Seq<Seq<u8>>, kept: Seq<Seq<u8>>)
    requires
        kept == kept_names(a),
        kept == kept_names(b),
    ensures
        a == b,
{
    assert(a.len() == kept.len() && b.len() == kept.len());
    assert forall|i: int| 0 <= i < a.len() implies a[i] == b[i] by {
        assert(kept[i] == paths::kept_name(a[i]));
        assert(kept[i] == paths::kept_name(b[i]));
        paths::lemma_kept_name_is_injective(a[i], b[i]);
    }
    assert(a =~= b);
}

proof fn lemma_place(home: Seq<char>, project_root: Seq<u8>, file: Seq<u8>)
    requires
        has_text_name(project_root),
        is_outside(home, file, project_root) || is_plain(
            path_in_project(file, project_root),
            paths::file_name_of(project_root)->0,
        ),
    ensures
        paths::place_of(plan_of(home, file, project_root).archive_path) == paths::place_of(
            archive_root_of(home),
        ) + place_from_root(home, project_root, file),
{
    let path = path_in_project(file, project_root);
    let root = paths::place_of(archive_root_of(home));
    let project = paths::file_name_of(project_root)->0;
    lemma_project_dir(home, project_root);
    if is_outside(home, file, project_root) {
        let mark = mark_of(paths::anchor_of(path) == paths::Anchor::Root);
        let place = relative_path(home, file, project_root);
        lemma_marks();
        paths::lemma_names_are_names(path);
        paths::lemma_marked_path(mark, paths::names(path));
        paths::lemma_joined_place(project_dir_of(home, project_root), place);
        assert(root.push(project) + (seq![mark] + kept_names(paths::names(path))) =~= root + (seq![
            project,
            mark,
        ] + kept_names(paths::names(path))));
    } else if goes_back_once(path) {
        lemma_path_to_neighbour_is_inside(home, project_root, path);
    } else {
        lemma_forward_path_is_inside(home, project_root, path);
        assert(root.push(project) + paths::names(path) =~= root + (seq![project] + paths::names(
            path,
        )));
    }
}

proof fn lemma_marks()
    ensures
        forall|rooted: bool|
            paths::is_name(#[trigger] mark_of(rooted)) && mark_of(rooted) != paths::parent_name()
                && !mark_of(rooted).contains(paths::SLASH),
        mark_of(true) != mark_of(false),
{
    reveal_strlit(".absolute");
    reveal_strlit(".above");
    is_ascii_chars_encode_utf8(".absolute"@);
    is_ascii_chars_encode_utf8(".above"@);
    assert(mark_of(true).len() == 9);
    assert(mark_of(false).len() == 6);
}

/// The project of single files.
pub open spec fn single_file() -> Seq<u8> {
    encode_utf8("single_file"@)
}

proof fn lemma_single_file()
    ensures
        has_text_name(single_file()),
        paths::file_name_of(single_file()) == Some(single_file()),
{
    reveal_strlit("single_file");
    is_ascii_chars_encode_utf8("single_file"@);
    let name = single_file();
    assert(name.len() == 11);
    assert forall|i: int| 0 <= i < name.len() implies #[trigger] name[i] != paths::SLASH by {}
    paths::lemma_name_alone(name);
    encode_utf8_valid_utf8("single_file"@);
}

/// Different single files that are given by tidy relative paths do not share
/// their backups.
pub proof fn law_single_files_are_kept_apart(home: Seq<char>, rel: Seq<u8>, other: Seq<u8>)
    requires
        paths::is_tidy(rel),
        paths::is_tidy(other),
        paths::relative_to(rel, single_file()) is None,
        paths::relative_to(other, single_file()) is None,
        is_plain(rel, single_file()),
        is_plain(other, single_file()),
        paths::place_of(plan_of(home, rel, single_file()).archive_path) == paths::place_of(
            plan_of(home, other, single_file()).archive_path,
        ),
    ensures
        paths::names(rel) == paths::names(other),
{
    lemma_single_file();
    law_files_are_kept_apart(home, single_file(), rel, other);
}

/// Backups of a file that were made in different seconds have different
/// directories.
pub proof fn law_backups_are_kept_apart(plan: ArchivePlan<Seq<u8>>, at: u64, later: u64)
    requires
        backup_dir(plan, at) == backup_dir(plan, later),
    ensures
        at == later,
{
    let a = encode_utf8(text::decimal(at as nat));
    let b = encode_utf8(text::decimal(later as nat));
    text::lemma_decimal_bytes(at as nat);
    text::lemma_decimal_bytes(later as nat);
    assert(48 <= a[0] && 48 <= b[0]);
    paths::lemma_joined_is_injective(plan.archive_path, a, b);
}

/// The backups of a file lie in the archive, wherever the file itself lies; and
/// they lie below its project's directory unless the file's path goes back.
pub proof fn law_backups_lie_in_archive(
    home: Seq<char>,
    file_path: Seq<u8>,
    project_root: Seq<u8>,
    at: u64,
)
    requires
        has_text_name(file_path),
        has_text_name(project_root),
    ensures
        ({
            let plan = plan_of(home, file_path, project_root);
            let path = path_in_project(file_path, project_root);
            let project = project_dir_of(home, project_root);
            &&& paths::is_within(plan.archive_path, plan.archive_root)
            &&& paths::is_within(backup_dir(plan, at), plan.archive_root)
            &&& paths::lies_below(project, plan.archive_root)
            &&& is_outside(home, file_path, project_root) || !paths::names(path).contains(
                paths::parent_name(),
            ) ==> paths::lies_below(plan.archive_path, project) && paths::lies_below(
                backup_dir(plan, at),
                project,
            )
        }),
{
    let root = archive_root_of(home);
    let project = project_dir_of(home, project_root);
    let path = path_in_project(file_path, project_root);
    let rel = relative_path(home, file_path, project_root);
    let plan = plan_of(home, file_path, project_root);
    lemma_project_dir(home, project_root);
    lemma_marks();
    paths::lemma_names_are_names(path);
    paths::lemma_marked_path(
        mark_of(paths::anchor_of(path) == paths::Anchor::Root),
        paths::names(path),
    );
    if !paths::names(rel).contains(paths::parent_name()) {
        paths::law_inner_path_lies_below(project, rel);
        paths::law_inner_path_stays_within(project, rel, root);
    }
    let stamp = encode_utf8(text::decimal(at as nat));
    text::lemma_decimal_bytes(at as nat);
    assert forall|i: int| 0 <= i < stamp.len() implies #[trigger] stamp[i] != paths::SLASH
        && stamp[i] != paths::DOT by {}
    paths::lemma_name_is_inner(stamp);
    paths::law_inner_path_lies_below(plan.archive_path, stamp);
    paths::law_inner_path_stays_within(plan.archive_path, stamp, root);
    if paths::lies_below(plan.archive_path, project) {
        paths::law_lies_below_is_transitive(backup_dir(plan, at), plan.archive_path, project);
    }
}

proof fn lemma_archive_root(home: Seq<char>)
    ensures
        archive_root_of(home).len() > 0,
{
    reveal_strlit("/.validation_archiver");
    is_ascii_chars_encode_utf8("/.validation_archiver"@);
}

/// What can be removed or pruned as a project lies below the archive's root,
/// and is not the root itself.
pub proof fn law_projects_lie_below_root(home: Seq<char>, project: Seq<char>)
    requires
        project_path_of(home, project) is Some,
    ensures
        project_path_of(home, project) matches Some(path) && paths::lies_below(
            path,
            archive_root_of(home),
        ) && paths::names(path).len() > paths::names(archive_root_of(home)).len(),
{
    lemma_archive_root(home);
    paths::law_inner_path_lies_below(archive_root_of(home), encode_utf8(project));
}

/// The hash of a backup is kept in the file `.hash` in its directory.
pub proof fn law_hash_file_is_named(dir: Seq<u8>)
    ensures
        hash_file_in(dir) == paths::joined(dir, seq![46u8, 104, 97, 115, 104]),
{
    reveal_strlit(".hash");
    is_ascii_chars_encode_utf8(".hash"@);
    assert(encode_utf8(".hash"@) =~= seq![46u8, 104, 97, 115, 104]);
}

/// After the first `n` of the events archiving asks for `request`.
pub open spec fn asks(
    plan: ArchivePlan<Seq<u8>>,
    events: Seq<ArchiveEvent<Seq<char>>>,
    n: int,
    request: ArchiveRequest<Seq<u8>, Seq<char>>,
) -> bool {
    after(events.take(n)) matches Some(stage) && request_of(plan, stage) == request
}

/// The course of archiving a changed file that fits: the newest hash is looked
/// for, old backups are rotated and the new one is made in one and the same
/// directory, that of the plan. The backup is a directory named after the
/// second, the file is copied into it under another name before it gets its own,
/// and the hash that the file has is written last, beside it.
pub proof fn law_course_of_archiving(
    plan: ArchivePlan<Seq<u8>>,
    latest: Option<Seq<char>>,
    hash: Seq<char>,
    blocks: u64,
    size: u64,
    needed: u64,
    at: u64,
)
    requires
        latest != Some(hash),
        needed <= blocks * size <= u64::MAX,
    ensures
        ({
            let events = seq![
                ArchiveEvent::Latest(latest),
                ArchiveEvent::Hash(Ok(hash)),
                ArchiveEvent::Done { failure: None },
                ArchiveEvent::Space(Ok((blocks, size))),
                ArchiveEvent::Size(Ok(needed)),
                ArchiveEvent::Done { failure: None },
                ArchiveEvent::Clock(at),
                ArchiveEvent::Done { failure: None },
                ArchiveEvent::Done { failure: None },
                ArchiveEvent::Done { failure: None },
                ArchiveEvent::Done { failure: None },
            ];
            let backup = paths::joined(
                plan.archive_path,
                encode_utf8(text::decimal(at as nat)),
            );
            let partial = paths::joined(
                backup,
                seq![46u8, 116, 109, 112, 95] + plan.file_name,
            );
            let file = paths::joined(backup, plan.file_name);
            let kept = paths::joined(backup, seq![46u8, 104, 97, 115, 104]);
            &&& asks(plan, events, 0, ArchiveRequest::FindLatest { dir: plan.archive_path })
            &&& asks(plan, events, 1, ArchiveRequest::Hash { file: plan.file_path })
            &&& asks(plan, events, 2, ArchiveRequest::CreateDir { dir: plan.archive_root })
            &&& asks(plan, events, 3, ArchiveRequest::QuerySpace { path: plan.archive_root })
            &&& asks(plan, events, 4, ArchiveRequest::QuerySize { file: plan.file_path })
            &&& asks(
                plan,
                events,
                5,
                ArchiveRequest::Rotate { dir: plan.archive_path, max_backups: 100 },
            )
            &&& asks(plan, events, 6, ArchiveRequest::ReadClock)
            &&& asks(plan, events, 7, ArchiveRequest::CreateDir { dir: backup })
            &&& asks(
                plan,
                events,
                8,
                ArchiveRequest::Copy { from: plan.file_path, to: partial },
            )
            &&& asks(plan, events, 9, ArchiveRequest::Rename { from: partial, to: file })
            &&& asks(plan, events, 10, ArchiveRequest::WriteHash { path: kept, hash })
            &&& asks(plan, events, 11, ArchiveRequest::Archived { destination: file })
        }),
{
    let events = all_done(latest, hash, blocks, size, needed, at);
    reveal_strlit(".tmp_");
    is_ascii_chars_encode_utf8(".tmp_"@);
    assert(encode_utf8(".tmp_"@) =~= seq![46u8, 116, 109, 112, 95]);
    law_hash_file_is_named(
        paths::joined(plan.archive_path, encode_utf8(text::decimal(at as nat))),
    );
    lemma_step(events, 0);
    lemma_step(events, 1);
    lemma_step(events, 2);
    lemma_step(events, 3);
    lemma_step(events, 4);
    lemma_step(events, 5);
    lemma_step(events, 6);
    lemma_step(events, 7);
    lemma_step(events, 8);
    lemma_step(events, 9);
    lemma_step(events, 10);
    assert(events.take(0) == Seq::<ArchiveEvent<Seq<char>>>::empty());
}

/// A file whose hash is the newest one needs nothing more; and one that is larger
/// than the space that is left is reported, before anything is rotated or made.
pub proof fn law_archiving_ends_early(
    plan: ArchivePlan<Seq<u8>>,
    latest: Option<Seq<char>>,
    hash: Seq<char>,
    blocks: u64,
    size: u64,
    needed: u64,
    later: ArchiveEvent<Seq<char>>,
)
    requires
        blocks * size <= u64::MAX,
    ensures
        ({
            let same = seq![ArchiveEvent::Latest(Some(hash)), ArchiveEvent::Hash(Ok(hash))];
            asks(plan, same, 2, ArchiveRequest::Unchanged) && !fits(after(same)->0, later)
        }),
        latest != Some(hash) && needed > blocks * size ==> {
            let full = seq![
                ArchiveEvent::Latest(latest),
                ArchiveEvent::Hash(Ok(hash)),
                ArchiveEvent::Done { failure: None },
                ArchiveEvent::Space(Ok((blocks, size))),
                ArchiveEvent::Size(Ok(needed)),
            ];
            asks(
                plan,
                full,
                5,
                ArchiveRequest::NoSpace { error: "Insufficient disk space"@ },
            ) && !fits(after(full)->0, later)
        },
{
    let same = seq![
        ArchiveEvent::<Seq<char>>::Latest(Some(hash)),
        ArchiveEvent::Hash(Ok(hash)),
    ];
    lemma_step(same, 0);
    lemma_step(same, 1);
    assert(same.take(0) == Seq::<ArchiveEvent<Seq<char>>>::empty());
    assert(same.take(2) == same);
    if latest != Some(hash) && needed > blocks * size {
        let full = seq![
            ArchiveEvent::Latest(latest),
            ArchiveEvent::Hash(Ok(hash)),
            ArchiveEvent::Done { failure: None },
            ArchiveEvent::Space(Ok((blocks, size))),
            ArchiveEvent::Size(Ok(needed)),
        ];
        lemma_step(full, 0);
        lemma_step(full, 1);
        lemma_step(full, 2);
        lemma_step(full, 3);
        lemma_step(full, 4);
        assert(full.take(0) == Seq::<ArchiveEvent<Seq<char>>>::empty());
        assert(full.take(5) == full);
    }
}

/// Where the backups of a file lie, by names: below `.validation_archiver` in the
/// home directory, in the directory of the project, at the file's own path below
/// the project or, if it does not lie there, as it was given. Only a path from
/// the root, or one that would lead out of the archive, goes into a directory
/// apart, with its names as they are but for those of nothing but dots.
pub proof fn law_place_of_backups_by_names(
    home: Seq<char>,
    file_path: Seq<u8>,
    project_root: Seq<u8>,
)
    requires
        has_text_name(file_path),
        has_text_name(project_root),
    ensures
        ({
            let plan = plan_of(home, file_path, project_root);
            let root = encode_utf8(home) + encode_utf8("/.validation_archiver"@);
            let above = paths::names(project_root);
            let stripped = paths::relative_to(file_path, project_root) is Some;
            let rooted = !stripped && file_path[0] == 47;
            let list = if stripped {
                paths::names(file_path).skip(above.len() as int)
            } else {
                paths::names(file_path)
            };
            let dir = paths::names(root).push(above[above.len() - 1]);
            let kept = list.map_values(|name: Seq<u8>| paths::kept_name(name));
            let own = paths::names(plan.archive_path);
            &&& plan.archive_root == root
            &&& plan.file_path == file_path
            &&& plan.file_name == paths::names(file_path)[paths::names(file_path).len() - 1]
            &&& paths::anchor_of(plan.archive_path) == paths::anchor_of(root)
            &&& rooted ==> own == dir.push(encode_utf8(".absolute"@)) + kept
            &&& !rooted ==> own == dir + list || own == dir.push(encode_utf8(".above"@)) + kept
            &&& !rooted && !list.contains(seq![46u8, 46]) ==> own == dir + list
            &&& !rooted ==> (own == dir + list && paths::is_within(plan.archive_path, root)) || (
            own == dir.push(encode_utf8(".above"@)) + kept && forall|p: Seq<u8>|
                #![trigger paths::is_within(p, root)]
                paths::anchor_of(p) == paths::anchor_of(root) && paths::names(p) == dir + list
                    ==> !paths::is_within(p, root))
        }),
{
    let plan = plan_of(home, file_path, project_root);
    let root = archive_root_of(home);
    let path = path_in_project(file_path, project_root);
    let project = project_dir_of(home, project_root);
    let name = paths::file_name_of(project_root)->0;
    let place = relative_path(home, file_path, project_root);
    let dir = paths::names(root).push(name);
    lemma_archive_root(home);
    lemma_project_dir(home, project_root);
    lemma_marks();
    paths::lemma_named_is_not_empty(file_path);
    paths::law_stripping_leaves_the_other_names(file_path, project_root);
    paths::lemma_file_name_alone(project_root);
    paths::lemma_file_name_is_inner(project_root);
    paths::lemma_joined_names(root, name);
    assert(paths::names(project) =~= dir);
    paths::lemma_names_are_names(path);
    let mark = mark_of(paths::anchor_of(path) == paths::Anchor::Root);
    paths::lemma_marked_path(mark, paths::names(path));
    paths::lemma_joined_names(project, place);
    let kept = paths::names(path).map_values(|name: Seq<u8>| paths::kept_name(name));
    assert(dir + (seq![mark] + kept) =~= dir.push(mark) + kept);
    if paths::anchor_of(path) != paths::Anchor::Root {
        paths::lemma_joined_names(project, path);
        let as_given = paths::joined(project, path);
        assert forall|p: Seq<u8>|
            #![trigger paths::is_within(p, root)]
            paths::anchor_of(p) == paths::anchor_of(root) && paths::names(p) == dir + paths::names(
                path,
            ) implies paths::is_within(p, root) == paths::is_within(as_given, root) by {
            assert(paths::place_of(p) == paths::place_of(as_given));
        }
        if !paths::names(path).contains(paths::parent_name()) {
            lemma_forward_path_is_inside(home, project_root, path);
        }
    }
}

/// Something is a project of the archive exactly if its name does not start at
/// the root, names something, and never goes back; and it lies directly where
/// that name leads from `.validation_archiver` in the home directory.
pub proof fn law_project_path_by_names(home: Seq<char>, project: Seq<char>)
    ensures
        ({
            let name = encode_utf8(project);
            let root = encode_utf8(home) + encode_utf8("/.validation_archiver"@);
            let list = paths::names(name);
            &&& project_path_of(home, project) is Some <==> (name.len() == 0 || name[0] != 47)
                && list.len() > 0 && (forall|i: int|
                0 <= i < list.len() ==> #[trigger] list[i] != seq![46u8, 46])
            &&& project_path_of(home, project) matches Some(path) ==> path == paths::joined(
                root,
                name,
            ) && paths::names(path) == paths::names(root) + list
        }),
{
    let name = encode_utf8(project);
    paths::law_inner_path_never_goes_back(name);
    lemma_archive_root(home);
    if name.len() == 0 || name[0] != 47 {
        paths::lemma_joined_names(archive_root_of(home), name);
    }
}

/// A file can be archived, as part of a project, if both paths end in a name that
/// does not go back and is text.
pub proof fn law_text_name_is_the_last_name(path: Seq<u8>)
    ensures
        has_text_name(path) <==> paths::names(path).len() > 0 && paths::names(path)[paths::names(
            path,
        ).len() - 1] != seq![46u8, 46] && valid_utf8(
            paths::names(path)[paths::names(path).len() - 1],
        ),
{
    let list = paths::names(path);
    if list.len() > 0 {
        paths::law_file_name_is_the_last_name(path, list[list.len() - 1]);
    }
}

/// The contracts see everything that these values hold, as it is: nothing is left
/// out, and nothing is changed but that bytes and texts are taken as sequences.
pub proof fn law_views_show_everything(
    archive_plan: ArchivePlan<Vec<u8>>,
    archive_end: ArchiveEnd<String>,
    archive_stage: ArchiveStage<String>,
    archive_event: ArchiveEvent<String>,
    archive_request: ArchiveRequest<Vec<u8>, String>,
)
    ensures
        archive_plan@ == (ArchivePlan {
            archive_root: archive_plan.archive_root@,
            archive_path: archive_plan.archive_path@,
            file_path: archive_plan.file_path@,
            file_name: archive_plan.file_name@,
        }),
        archive_end@ == (match archive_end {
            ArchiveEnd::Unchanged => ArchiveEnd::Unchanged,
            ArchiveEnd::NoSpace => ArchiveEnd::NoSpace,
            ArchiveEnd::Failed { error } => ArchiveEnd::Failed { error: error@ },
            ArchiveEnd::Archived { at } => ArchiveEnd::Archived { at },
        }),
        archive_stage@ == (match archive_stage {
            ArchiveStage::FindLatest => ArchiveStage::FindLatest,
            ArchiveStage::Hash { latest } => ArchiveStage::Hash { latest: text::text_of(latest) },
            ArchiveStage::CreateRoot { hash } => ArchiveStage::CreateRoot { hash: hash@ },
            ArchiveStage::QuerySpace { hash } => ArchiveStage::QuerySpace { hash: hash@ },
            ArchiveStage::QuerySize { hash, available } => ArchiveStage::QuerySize {
                hash: hash@,
                available,
            },
            ArchiveStage::Rotate { hash } => ArchiveStage::Rotate { hash: hash@ },
            ArchiveStage::ReadClock { hash } => ArchiveStage::ReadClock { hash: hash@ },
            ArchiveStage::CreateDir { hash, at } => ArchiveStage::CreateDir { hash: hash@, at },
            ArchiveStage::Copy { hash, at } => ArchiveStage::Copy { hash: hash@, at },
            ArchiveStage::Rename { hash, at } => ArchiveStage::Rename { hash: hash@, at },
            ArchiveStage::WriteHash { hash, at } => ArchiveStage::WriteHash { hash: hash@, at },
            ArchiveStage::Ended(end) => ArchiveStage::Ended(end@),
        }),
        archive_event@ == (match archive_event {
            ArchiveEvent::Latest(hash) => ArchiveEvent::Latest(text::text_of(hash)),
            ArchiveEvent::Hash(hash) => ArchiveEvent::Hash(
                match hash {
                    Ok(hash) => Ok(hash@),
                    Err(error) => Err(error@),
                },
            ),
            ArchiveEvent::Space(space) => ArchiveEvent::Space(
                match space {
                    Ok(space) => Ok(space),
                    Err(error) => Err(error@),
                },
            ),
            ArchiveEvent::Size(size) => ArchiveEvent::Size(
                match size {
                    Ok(size) => Ok(size),
                    Err(error) => Err(error@),
                },
            ),
            ArchiveEvent::Done { failure } => ArchiveEvent::Done {
                failure: text::text_of(failure),
            },
            ArchiveEvent::Clock(at) => ArchiveEvent::Clock(at),
        }),
        archive_request@ == (match archive_request {
            ArchiveRequest::FindLatest { dir } => ArchiveRequest::FindLatest { dir: dir@ },
            ArchiveRequest::Hash { file } => ArchiveRequest::Hash { file: file@ },
            ArchiveRequest::QuerySpace { path } => ArchiveRequest::QuerySpace { path: path@ },
            ArchiveRequest::QuerySize { file } => ArchiveRequest::QuerySize { file: file@ },
            ArchiveRequest::Rotate { dir, max_backups } => ArchiveRequest::Rotate {
                dir: dir@,
                max_backups,
            },
            ArchiveRequest::ReadClock => ArchiveRequest::ReadClock,
            ArchiveRequest::CreateDir { dir } => ArchiveRequest::CreateDir { dir: dir@ },
            ArchiveRequest::Copy { from, to } => ArchiveRequest::Copy { from: from@, to: to@ },
            ArchiveRequest::Rename { from, to } => ArchiveRequest::Rename { from: from@, to: to@ },
            ArchiveRequest::WriteHash { path, hash } => ArchiveRequest::WriteHash {
                path: path@,
                hash: hash@,
            },
            ArchiveRequest::Unchanged => ArchiveRequest::Unchanged,
            ArchiveRequest::NoSpace { error } => ArchiveRequest::NoSpace { error: error@ },
            ArchiveRequest::Failed { error } => ArchiveRequest::Failed { error: error@ },
            ArchiveRequest::Archived { destination } => ArchiveRequest::Archived {
                destination: destination@,
            },
        }),
{
}

} // verus!
