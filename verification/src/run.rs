//! Running a script once and deciding whether to archive it: the checks before
//! it is run, the copy that is run in its place, and what its outcome means.

use vstd::prelude::*;
use vstd::slice::slice_to_vec;
use vstd::utf8::*;

use crate::command;
use crate::paths;
use crate::text;

verus! {

/// What the user asked for.
#[derive(PartialEq, Eq, Debug)]
pub struct RunConfig {
    /// The program to execute.
    pub command: String,
    /// The script to hand to it, and to archive upon success.
    pub file: String,
    /// Further arguments for the script.
    pub script_args: Vec<String>,
    /// Whether nothing but a good exit status counts as success.
    pub strict: bool,
    /// A directory to archive in place of the script.
    pub watch: Option<Vec<u8>>,
}

/// What the user asked for, as the contracts speak of it.
pub struct RunText {
    pub command: Seq<char>,
    pub file: Seq<char>,
    pub script_args: Seq<Seq<char>>,
    pub strict: bool,
    pub watch: Option<Seq<u8>>,
}

/// Why a script is not run.
#[derive(PartialEq, Eq, Structural, Clone, Copy, Debug)]
pub enum Refusal {
    NoFile,
    NotAFile,
    NotReadable,
    Empty,
    /// Another instance holds the lock.
    Busy,
    /// The script failed its syntax check.
    Invalid,
    /// The copies to run from could not be made.
    NoCopies,
}

/// What a run waits for.
#[derive(PartialEq, Eq, Debug)]
pub enum RunStage<P, T> {
    CheckExists,
    CheckKind,
    CheckOpen,
    CheckLength,
    CreateLock,
    TakeLock,
    Validate,
    Locate,
    CopyScript { script: P, snapshot: P },
    CopySnapshot { script: P, snapshot: P },
    Execute { script: P, snapshot: P },
    CleanUp { script: P, snapshot: P, success: bool, code: Option<i32>, stderr: T },
    Ask { success: bool, code: Option<i32>, stderr: T },
    Refused(Refusal),
    Succeeded { code: Option<i32> },
    Failed { code: Option<i32>, stderr: T },
}

/// What happened.
#[derive(PartialEq, Eq, Debug)]
pub enum RunEvent<P, T> {
    /// Whether there is something at the path.
    Exists(bool),
    /// Whether it is a file, where the system tells.
    Kind(Option<bool>),
    /// Whether it can be opened.
    Opened(bool),
    /// How long it is, where the system tells.
    Length(Option<u64>),
    LockCreated,
    /// Whether the lock was free.
    Locked(bool),
    /// Whether the script passed its syntax check.
    Validated(bool),
    /// Where temporary files go, and the time in nanoseconds from the Unix
    /// epoch.
    Located { temp_dir: P, nanos: u128 },
    Copied(bool),
    /// The program ended: with success or not, with an exit code if no signal
    /// ended it, and with this on its standard error.
    Exited { success: bool, code: Option<i32>, stderr: T },
    /// The temporary files were removed; whether the user interrupted the run.
    Cleaned { interrupted: bool },
    /// What the user answered.
    Answer(T),
}

/// What has to be done next.
#[derive(PartialEq, Eq, Debug)]
pub enum RunRequest<P, T, L> {
    CheckExists { path: T },
    CheckKind { path: T },
    CheckOpen { path: T },
    CheckLength { path: T },
    CreateLock { path: T },
    TakeLock,
    Validate { path: T },
    Locate,
    Copy { from: T, to: P },
    /// Announce the run, start `program` with `script` and then `args` as its
    /// arguments, and wait for its end.
    Execute { message: T, program: T, script: P, args: L },
    /// Remove the copies and the lock file.
    CleanUp { script: P, snapshot: P, lock: T },
    Ask { prompt: T },
    /// Give up, after removing the lock file where one is named, and end with
    /// the exit status.
    Refuse { message: T, unlock: Option<T>, status: i32 },
    /// Report the success, and archive the results.
    Archive { message: T },
    /// Report the failure, and what the program said about it where it did, and
    /// end with the exit status.
    Fail { message: T, detail: Option<T>, status: i32 },
}

/// A run of a script.
#[derive(PartialEq, Eq, Debug)]
pub struct RunJob {
    pub config: RunConfig,
    pub stage: RunStage<Vec<u8>, String>,
}

/// The bytes of a path, if there is one.
pub open spec fn bytes_of(path: Option<Vec<u8>>) -> Option<Seq<u8>> {
    match path {
        Some(path) => Some(path@),
        None => None,
    }
}

impl View for RunConfig {
    type V = RunText;

    open spec fn view(&self) -> RunText {
        RunText {
            command: self.command@,
            file: self.file@,
            script_args: command::texts(self.script_args@),
            strict: self.strict,
            watch: bytes_of(self.watch),
        }
    }
}

impl View for RunStage<Vec<u8>, String> {
    type V = RunStage<Seq<u8>, Seq<char>>;

    open spec fn view(&self) -> RunStage<Seq<u8>, Seq<char>> {
        match *self {
            RunStage::CheckExists => RunStage::CheckExists,
            RunStage::CheckKind => RunStage::CheckKind,
            RunStage::CheckOpen => RunStage::CheckOpen,
            RunStage::CheckLength => RunStage::CheckLength,
            RunStage::CreateLock => RunStage::CreateLock,
            RunStage::TakeLock => RunStage::TakeLock,
            RunStage::Validate => RunStage::Validate,
            RunStage::Locate => RunStage::Locate,
            RunStage::CopyScript { script, snapshot } => RunStage::CopyScript {
                script: script@,
                snapshot: snapshot@,
            },
            RunStage::CopySnapshot { script, snapshot } => RunStage::CopySnapshot {
                script: script@,
                snapshot: snapshot@,
            },
            RunStage::Execute { script, snapshot } => RunStage::Execute {
                script: script@,
                snapshot: snapshot@,
            },
            RunStage::CleanUp { script, snapshot, success, code, stderr } => RunStage::CleanUp {
                script: script@,
                snapshot: snapshot@,
                success,
                code,
                stderr: stderr@,
            },
            RunStage::Ask { success, code, stderr } => RunStage::Ask {
                success,
                code,
                stderr: stderr@,
            },
            RunStage::Refused(refusal) => RunStage::Refused(refusal),
            RunStage::Succeeded { code } => RunStage::Succeeded { code },
            RunStage::Failed { code, stderr } => RunStage::Failed { code, stderr: stderr@ },
        }
    }
}

impl View for RunEvent<Vec<u8>, String> {
    type V = RunEvent<Seq<u8>, Seq<char>>;

    open spec fn view(&self) -> RunEvent<Seq<u8>, Seq<char>> {
        match *self {
            RunEvent::Exists(yes) => RunEvent::Exists(yes),
            RunEvent::Kind(kind) => RunEvent::Kind(kind),
            RunEvent::Opened(yes) => RunEvent::Opened(yes),
            RunEvent::Length(length) => RunEvent::Length(length),
            RunEvent::LockCreated => RunEvent::LockCreated,
            RunEvent::Locked(yes) => RunEvent::Locked(yes),
            RunEvent::Validated(yes) => RunEvent::Validated(yes),
            RunEvent::Located { temp_dir, nanos } => RunEvent::Located {
                temp_dir: temp_dir@,
                nanos,
            },
            RunEvent::Copied(yes) => RunEvent::Copied(yes),
            RunEvent::Exited { success, code, stderr } => RunEvent::Exited {
                success,
                code,
                stderr: stderr@,
            },
            RunEvent::Cleaned { interrupted } => RunEvent::Cleaned { interrupted },
            RunEvent::Answer(answer) => RunEvent::Answer(answer@),
        }
    }
}

impl View for RunRequest<Vec<u8>, String, Vec<String>> {
    type V = RunRequest<Seq<u8>, Seq<char>, Seq<Seq<char>>>;

    open spec fn view(&self) -> RunRequest<Seq<u8>, Seq<char>, Seq<Seq<char>>> {
        match *self {
            RunRequest::CheckExists { path } => RunRequest::CheckExists { path: path@ },
            RunRequest::CheckKind { path } => RunRequest::CheckKind { path: path@ },
            RunRequest::CheckOpen { path } => RunRequest::CheckOpen { path: path@ },
            RunRequest::CheckLength { path } => RunRequest::CheckLength { path: path@ },
            RunRequest::CreateLock { path } => RunRequest::CreateLock { path: path@ },
            RunRequest::TakeLock => RunRequest::TakeLock,
            RunRequest::Validate { path } => RunRequest::Validate { path: path@ },
            RunRequest::Locate => RunRequest::Locate,
            RunRequest::Copy { from, to } => RunRequest::Copy { from: from@, to: to@ },
            RunRequest::Execute { message, program, script, args } => RunRequest::Execute {
                message: message@,
                program: program@,
                script: script@,
                args: command::texts(args@),
            },
            RunRequest::CleanUp { script, snapshot, lock } => RunRequest::CleanUp {
                script: script@,
                snapshot: snapshot@,
                lock: lock@,
            },
            RunRequest::Ask { prompt } => RunRequest::Ask { prompt: prompt@ },
            RunRequest::Refuse { message, unlock, status } => RunRequest::Refuse {
                message: message@,
                unlock: text::text_of(unlock),
                status,
            },
            RunRequest::Archive { message } => RunRequest::Archive { message: message@ },
            RunRequest::Fail { message, detail, status } => RunRequest::Fail {
                message: message@,
                detail: text::text_of(detail),
                status,
            },
        }
    }
}

/// The file by which another instance is kept from running the same script.
pub open spec fn lock_path(config: RunText) -> Seq<char> {
    config.file + ".lock"@
}

/// The name of a temporary file for the script.
pub open spec fn temp_name(prefix: Seq<char>, nanos: u128, config: RunText) -> Seq<u8> {
    encode_utf8(prefix) + encode_utf8(text::decimal(nanos as nat)) + encode_utf8("_"@)
        + paths::file_name_of(encode_utf8(config.file))->0
}

/// The copy of the script that is executed.
pub open spec fn script_copy(config: RunText, temp_dir: Seq<u8>, nanos: u128) -> Seq<u8> {
    paths::joined(temp_dir, temp_name("va_exec_"@, nanos, config))
}

/// The copy of the script as it was when it was executed.
pub open spec fn snapshot_copy(config: RunText, temp_dir: Seq<u8>, nanos: u128) -> Seq<u8> {
    paths::joined(temp_dir, temp_name("va_snapshot_"@, nanos, config))
}

/// The run counts as a success: by the program's exit status or, where the user
/// is not strict, because it had nothing to say on its standard error.
pub open spec fn passed(strict: bool, success: bool, stderr: Seq<char>) -> bool {
    success || (!strict && stderr.len() == 0)
}

/// The event answers what the stage waits for. A place for the copies is of use
/// only if the script's path ends in a name.
pub open spec fn fits(
    config: RunText,
    stage: RunStage<Seq<u8>, Seq<char>>,
    event: RunEvent<Seq<u8>, Seq<char>>,
) -> bool {
    match stage {
        RunStage::CheckExists => event is Exists,
        RunStage::CheckKind => event is Kind,
        RunStage::CheckOpen => event is Opened,
        RunStage::CheckLength => event is Length,
        RunStage::CreateLock => event is LockCreated,
        RunStage::TakeLock => event is Locked,
        RunStage::Validate => event is Validated,
        RunStage::Locate => event is Located && paths::file_name_of(
            encode_utf8(config.file),
        ) is Some,
        RunStage::CopyScript { .. } | RunStage::CopySnapshot { .. } => event is Copied,
        RunStage::Execute { .. } => event is Exited,
        RunStage::CleanUp { .. } => event is Cleaned,
        RunStage::Ask { .. } => event is Answer,
        RunStage::Refused(_) | RunStage::Succeeded { .. } | RunStage::Failed { .. } => false,
    }
}

/// `then` if the check went well, else the end.
pub open spec fn unless_refused(
    fine: bool,
    then: RunStage<Seq<u8>, Seq<char>>,
    refusal: Refusal,
) -> RunStage<Seq<u8>, Seq<char>> {
    if fine {
        then
    } else {
        RunStage::Refused(refusal)
    }
}

/// The end of a run that was executed.
pub open spec fn finished(
    success: bool,
    code: Option<i32>,
    stderr: Seq<char>,
) -> RunStage<Seq<u8>, Seq<char>> {
    if success {
        RunStage::Succeeded { code }
    } else {
        RunStage::Failed { code, stderr }
    }
}

/// The stage that follows.
pub open spec fn next(
    config: RunText,
    stage: RunStage<Seq<u8>, Seq<char>>,
    event: RunEvent<Seq<u8>, Seq<char>>,
) -> RunStage<Seq<u8>, Seq<char>> {
    match (stage, event) {
        (RunStage::CheckExists, RunEvent::Exists(yes)) => unless_refused(
            yes,
            RunStage::CheckKind,
            Refusal::NoFile,
        ),
        (RunStage::CheckKind, RunEvent::Kind(is_file)) => unless_refused(
            is_file == Some(true),
            RunStage::CheckOpen,
            Refusal::NotAFile,
        ),
        (RunStage::CheckOpen, RunEvent::Opened(yes)) => unless_refused(
            yes,
            RunStage::CheckLength,
            Refusal::NotReadable,
        ),
        (RunStage::CheckLength, RunEvent::Length(length)) => unless_refused(
            length matches Some(n) && n > 0,
            RunStage::CreateLock,
            Refusal::Empty,
        ),
        (RunStage::CreateLock, RunEvent::LockCreated) => RunStage::TakeLock,
        (RunStage::TakeLock, RunEvent::Locked(yes)) => unless_refused(
            yes,
            RunStage::Validate,
            Refusal::Busy,
        ),
        (RunStage::Validate, RunEvent::Validated(yes)) => unless_refused(
            yes,
            RunStage::Locate,
            Refusal::Invalid,
        ),
        (RunStage::Locate, RunEvent::Located { temp_dir, nanos }) => RunStage::CopyScript {
            script: script_copy(config, temp_dir, nanos),
            snapshot: snapshot_copy(config, temp_dir, nanos),
        },
        (RunStage::CopyScript { script, snapshot }, RunEvent::Copied(yes)) => unless_refused(
            yes,
            RunStage::CopySnapshot { script, snapshot },
            Refusal::NoCopies,
        ),
        (RunStage::CopySnapshot { script, snapshot }, RunEvent::Copied(yes)) => unless_refused(
            yes,
            RunStage::Execute { script, snapshot },
            Refusal::NoCopies,
        ),
        (
            RunStage::Execute { script, snapshot },
            RunEvent::Exited { success, code, stderr },
        ) => RunStage::CleanUp { script, snapshot, success, code, stderr },
        (
            RunStage::CleanUp { script, snapshot, success, code, stderr },
            RunEvent::Cleaned { interrupted },
        ) => if interrupted {
            RunStage::Ask { success, code, stderr }
        } else {
            finished(passed(config.strict, success, stderr), code, stderr)
        },
        (RunStage::Ask { success, code, stderr }, RunEvent::Answer(answer)) => finished(
            passed(config.strict, success, stderr) || text::confirms(answer),
            code,
            stderr,
        ),
        _ => stage,
    }
}

/// What is said about a refusal.
pub open spec fn refusal_text(config: RunText, refusal: Refusal) -> Seq<char> {
    match refusal {
        Refusal::NoFile => "Error: File '"@ + config.file + "' does not exist."@,
        Refusal::NotAFile => "Error: Path '"@ + config.file + "' is not a file."@,
        Refusal::NotReadable => "Error: File '"@ + config.file + "' is not readable."@,
        Refusal::Empty => "Error: File '"@ + config.file + "' is empty. Skipping execution."@,
        Refusal::Busy => "Error: Another instance is already testing file '"@ + config.file
            + "'."@,
        Refusal::Invalid => "Error: Script '"@ + config.file + "' failed syntax validation."@,
        Refusal::NoCopies => "Error creating temporary execution copies."@,
    }
}

/// The lock was taken before the refusal.
pub open spec fn holds_lock(refusal: Refusal) -> bool {
    refusal == Refusal::Invalid || refusal == Refusal::NoCopies
}

/// An exit code as it is shown.
pub open spec fn code_text(code: Option<i32>) -> Seq<char> {
    match code {
        Some(code) => "Some("@ + text::signed_decimal(code as int) + ")"@,
        None => "None"@,
    }
}

/// What a stage asks for.
pub open spec fn request_of(
    config: RunText,
    stage: RunStage<Seq<u8>, Seq<char>>,
) -> RunRequest<Seq<u8>, Seq<char>, Seq<Seq<char>>> {
    match stage {
        RunStage::CheckExists => RunRequest::CheckExists { path: config.file },
        RunStage::CheckKind => RunRequest::CheckKind { path: config.file },
        RunStage::CheckOpen => RunRequest::CheckOpen { path: config.file },
        RunStage::CheckLength => RunRequest::CheckLength { path: config.file },
        RunStage::CreateLock => RunRequest::CreateLock { path: lock_path(config) },
        RunStage::TakeLock => RunRequest::TakeLock,
        RunStage::Validate => RunRequest::Validate { path: config.file },
        RunStage::Locate => RunRequest::Locate,
        RunStage::CopyScript { script, .. } => RunRequest::Copy { from: config.file, to: script },
        RunStage::CopySnapshot { snapshot, .. } => RunRequest::Copy {
            from: config.file,
            to: snapshot,
        },
        RunStage::Execute { script, .. } => RunRequest::Execute {
            message: "Running program: "@ + config.command,
            program: config.command,
            script,
            args: config.script_args,
        },
        RunStage::CleanUp { script, snapshot, .. } => RunRequest::CleanUp {
            script,
            snapshot,
            lock: lock_path(config),
        },
        RunStage::Ask { .. } => RunRequest::Ask {
            prompt: "\nExecution interrupted. Archive results? [y/N]: "@,
        },
        RunStage::Refused(refusal) => RunRequest::Refuse {
            message: refusal_text(config, refusal),
            unlock: if holds_lock(refusal) {
                Some(lock_path(config))
            } else {
                None
            },
            status: 1,
        },
        RunStage::Succeeded { code } => RunRequest::Archive {
            message: "✔ SUCCESS (exit code "@ + code_text(code) + ")"@,
        },
        RunStage::Failed { code, stderr } => RunRequest::Fail {
            message: "✖ FAILURE (exit code: "@ + code_text(code) + ")"@,
            detail: if stderr.len() == 0 {
                None
            } else {
                Some("Error output:\n"@ + stderr)
            },
            status: 1,
        },
    }
}

fn make_lock_path(config: &RunConfig) -> (path: String)
    ensures
        path@ == lock_path(config@),
{
    let mut path = config.file.clone();
    path.append(".lock");
    path
}

fn make_temp_name(prefix: &str, nanos: u128, name: &[u8]) -> (temp: Vec<u8>)
    ensures
        temp@ == encode_utf8(prefix@) + encode_utf8(text::decimal(nanos as nat)) + encode_utf8(
            "_"@,
        ) + name@,
{
    let stamp = text::decimal_string(nanos);
    let mut temp = slice_to_vec(prefix.as_bytes());
    let mut part = slice_to_vec(stamp.as_str().as_bytes());
    temp.append(&mut part);
    part = slice_to_vec("_".as_bytes());
    temp.append(&mut part);
    part = slice_to_vec(name);
    temp.append(&mut part);
    temp
}

fn make_refusal_text(config: &RunConfig, refusal: Refusal) -> (message: String)
    ensures
        message@ == refusal_text(config@, refusal),
{
    let file = config.file.as_str();
    match refusal {
        Refusal::NoFile => text::surround("Error: File '", file, "' does not exist."),
        Refusal::NotAFile => text::surround("Error: Path '", file, "' is not a file."),
        Refusal::NotReadable => text::surround("Error: File '", file, "' is not readable."),
        Refusal::Empty => text::surround(
            "Error: File '",
            file,
            "' is empty. Skipping execution.",
        ),
        Refusal::Busy => text::surround(
            "Error: Another instance is already testing file '",
            file,
            "'.",
        ),
        Refusal::Invalid => text::surround(
            "Error: Script '",
            file,
            "' failed syntax validation.",
        ),
        Refusal::NoCopies => "Error creating temporary execution copies.".to_owned(),
    }
}

fn make_code_text(code: Option<i32>) -> (shown: String)
    ensures
        shown@ == code_text(code),
{
    match code {
        Some(code) => {
            let mut shown = "Some(".to_owned();
            text::push_signed_decimal(&mut shown, code);
            shown.append(")");
            shown
        },
        None => "None".to_owned(),
    }
}

fn step_unless(
    fine: bool,
    then: RunStage<Vec<u8>, String>,
    refusal: Refusal,
) -> (after: RunStage<Vec<u8>, String>)
    ensures
        after@ == unless_refused(fine, then@, refusal),
{
    if fine {
        then
    } else {
        RunStage::Refused(refusal)
    }
}

fn finish(success: bool, code: Option<i32>, stderr: String) -> (end: RunStage<Vec<u8>, String>)
    ensures
        end@ == finished(success, code, stderr@),
{
    if success {
        RunStage::Succeeded { code }
    } else {
        RunStage::Failed { code, stderr }
    }
}

/// Starts a run of a script.
pub fn run_project(config: RunConfig) -> (job: RunJob)
    ensures
        job.config == config,
        job.stage@ == RunStage::<Seq<u8>, Seq<char>>::CheckExists,
{
    RunJob { config, stage: RunStage::CheckExists }
}

impl RunJob {
    /// What has to be done next.
    pub fn request(&self) -> (request: RunRequest<Vec<u8>, String, Vec<String>>)
        ensures
            request@ == request_of(self.config@, self.stage@),
    {
        let config = &self.config;
        match &self.stage {
            RunStage::CheckExists => RunRequest::CheckExists { path: config.file.clone() },
            RunStage::CheckKind => RunRequest::CheckKind { path: config.file.clone() },
            RunStage::CheckOpen => RunRequest::CheckOpen { path: config.file.clone() },
            RunStage::CheckLength => RunRequest::CheckLength { path: config.file.clone() },
            RunStage::CreateLock => RunRequest::CreateLock { path: make_lock_path(config) },
            RunStage::TakeLock => RunRequest::TakeLock,
            RunStage::Validate => RunRequest::Validate { path: config.file.clone() },
            RunStage::Locate => RunRequest::Locate,
            RunStage::CopyScript { script, snapshot: _ } => RunRequest::Copy {
                from: config.file.clone(),
                to: slice_to_vec(script.as_slice()),
            },
            RunStage::CopySnapshot { script: _, snapshot } => RunRequest::Copy {
                from: config.file.clone(),
                to: slice_to_vec(snapshot.as_slice()),
            },
            RunStage::Execute { script, snapshot: _ } => {
                let args = config.script_args.clone();
                assert(command::texts(args@) =~= command::texts(config.script_args@));
                let mut message = "Running program: ".to_owned();
                message.append(config.command.as_str());
                RunRequest::Execute {
                    message,
                    program: config.command.clone(),
                    script: slice_to_vec(script.as_slice()),
                    args,
                }
            },
            RunStage::CleanUp { script, snapshot, .. } => RunRequest::CleanUp {
                script: slice_to_vec(script.as_slice()),
                snapshot: slice_to_vec(snapshot.as_slice()),
                lock: make_lock_path(config),
            },
            RunStage::Ask { .. } => RunRequest::Ask {
                prompt: "\nExecution interrupted. Archive results? [y/N]: ".to_owned(),
            },
            RunStage::Refused(refusal) => RunRequest::Refuse {
                message: make_refusal_text(config, *refusal),
                unlock: match refusal {
                    Refusal::Invalid => Some(make_lock_path(config)),
                    Refusal::NoCopies => Some(make_lock_path(config)),
                    _ => None,
                },
                status: 1,
            },
            RunStage::Succeeded { code } => {
                let shown = make_code_text(*code);
                RunRequest::Archive {
                    message: text::surround("✔ SUCCESS (exit code ", shown.as_str(), ")"),
                }
            },
            RunStage::Failed { code, stderr } => {
                let shown = make_code_text(*code);
                let detail: Option<String> = if stderr.as_str().is_empty() {
                    None
                } else {
                    let mut detail = "Error output:\n".to_owned();
                    detail.append(stderr.as_str());
                    Some(detail)
                };
                RunRequest::Fail {
                    message: text::surround("✖ FAILURE (exit code: ", shown.as_str(), ")"),
                    detail,
                    status: 1,
                }
            },
        }
    }

    /// The run after an event that answers its request.
    pub fn advance(self, event: RunEvent<Vec<u8>, String>) -> (after: RunJob)
        requires
            fits(self.config@, self.stage@, event@),
        ensures
            after.config == self.config,
            after.stage@ == next(self.config@, self.stage@, event@),
    {
        let config = self.config;
        let stage = match (self.stage, event) {
            (RunStage::CheckExists, RunEvent::Exists(yes)) => step_unless(
                yes,
                RunStage::CheckKind,
                Refusal::NoFile,
            ),
            (RunStage::CheckKind, RunEvent::Kind(is_file)) => {
                let fine: bool = match is_file {
                    Some(yes) => yes,
                    None => false,
                };
                step_unless(fine, RunStage::CheckOpen, Refusal::NotAFile)
            },
            (RunStage::CheckOpen, RunEvent::Opened(yes)) => step_unless(
                yes,
                RunStage::CheckLength,
                Refusal::NotReadable,
            ),
            (RunStage::CheckLength, RunEvent::Length(length)) => {
                let fine: bool = match length {
                    Some(n) => n > 0,
                    None => false,
                };
                step_unless(fine, RunStage::CreateLock, Refusal::Empty)
            },
            (RunStage::CreateLock, RunEvent::LockCreated) => RunStage::TakeLock,
            (RunStage::TakeLock, RunEvent::Locked(yes)) => step_unless(
                yes,
                RunStage::Validate,
                Refusal::Busy,
            ),
            (RunStage::Validate, RunEvent::Validated(yes)) => step_unless(
                yes,
                RunStage::Locate,
                Refusal::Invalid,
            ),
            (RunStage::Locate, RunEvent::Located { temp_dir, nanos }) => {
                let name = paths::file_name(config.file.as_str().as_bytes()).unwrap();
                let script = make_temp_name("va_exec_", nanos, name.as_slice());
                let snapshot = make_temp_name("va_snapshot_", nanos, name.as_slice());
                RunStage::CopyScript {
                    script: paths::join(temp_dir.as_slice(), script.as_slice()),
                    snapshot: paths::join(temp_dir.as_slice(), snapshot.as_slice()),
                }
            },
            (RunStage::CopyScript { script, snapshot }, RunEvent::Copied(yes)) => step_unless(
                yes,
                RunStage::CopySnapshot { script, snapshot },
                Refusal::NoCopies,
            ),
            (RunStage::CopySnapshot { script, snapshot }, RunEvent::Copied(yes)) => step_unless(
                yes,
                RunStage::Execute { script, snapshot },
                Refusal::NoCopies,
            ),
            (
                RunStage::Execute { script, snapshot },
                RunEvent::Exited { success, code, stderr },
            ) => RunStage::CleanUp { script, snapshot, success, code, stderr },
            (
                RunStage::CleanUp { script: _, snapshot: _, success, code, stderr },
                RunEvent::Cleaned { interrupted },
            ) => if interrupted {
                RunStage::Ask { success, code, stderr }
            } else {
                let good: bool = success || (!config.strict && stderr.as_str().is_empty());
                finish(good, code, stderr)
            },
            (RunStage::Ask { success, code, stderr }, RunEvent::Answer(answer)) => {
                let good: bool = success || (!config.strict && stderr.as_str().is_empty());
                finish(good || text::is_confirmation(answer.as_str()), code, stderr)
            },
            (stage, _) => stage,
        };
        RunJob { config, stage }
    }
}

/// Where a run stands after the events, from its start; nowhere if one of them
/// does not answer what was waited for.
pub open spec fn after(
    config: RunText,
    events: Seq<RunEvent<Seq<u8>, Seq<char>>>,
) -> Option<RunStage<Seq<u8>, Seq<char>>>
    decreases events.len(),
{
    if events.len() == 0 {
        Some(RunStage::CheckExists)
    } else {
        match after(config, events.drop_last()) {
            Some(stage) => if fits(config, stage, events.last()) {
                Some(next(config, stage, events.last()))
            } else {
                None
            },
            None => None,
        }
    }
}

/// The program was started in this stage or before it.
pub open spec fn is_executed(stage: RunStage<Seq<u8>, Seq<char>>) -> bool {
    match stage {
        RunStage::Execute { .. }
        | RunStage::CleanUp { .. }
        | RunStage::Ask { .. }
        | RunStage::Succeeded { .. }
        | RunStage::Failed { .. } => true,
        _ => false,
    }
}

/// The script was found to be a readable file that is not empty.
pub open spec fn found_script(events: Seq<RunEvent<Seq<u8>, Seq<char>>>) -> bool {
    &&& events.len() >= 4
    &&& events[0] == RunEvent::<Seq<u8>, Seq<char>>::Exists(true)
    &&& events[1] == RunEvent::<Seq<u8>, Seq<char>>::Kind(Some(true))
    &&& events[2] == RunEvent::<Seq<u8>, Seq<char>>::Opened(true)
    &&& events[3] matches RunEvent::Length(Some(n)) && n > 0
}

/// The lock was taken.
pub open spec fn took_lock(events: Seq<RunEvent<Seq<u8>, Seq<char>>>) -> bool {
    &&& events.len() >= 6
    &&& events[4] == RunEvent::<Seq<u8>, Seq<char>>::LockCreated
    &&& events[5] == RunEvent::<Seq<u8>, Seq<char>>::Locked(true)
}

/// The script passed its syntax check and was copied twice.
pub open spec fn made_ready(events: Seq<RunEvent<Seq<u8>, Seq<char>>>) -> bool {
    &&& events.len() >= 10
    &&& events[6] == RunEvent::<Seq<u8>, Seq<char>>::Validated(true)
    &&& events[7] is Located
    &&& events[8] == RunEvent::<Seq<u8>, Seq<char>>::Copied(true)
    &&& events[9] == RunEvent::<Seq<u8>, Seq<char>>::Copied(true)
}

/// The copies are the ones whose place follows from the events.
spec fn copies_are(
    config: RunText,
    events: Seq<RunEvent<Seq<u8>, Seq<char>>>,
    script: Seq<u8>,
    snapshot: Seq<u8>,
) -> bool {
    events.len() >= 8 && (events[7] matches RunEvent::Located { temp_dir, nanos } && script
        == script_copy(config, temp_dir, nanos) && snapshot == snapshot_copy(
        config,
        temp_dir,
        nanos,
    ))
}

/// What the events were if they led to the stage.
spec fn history(
    config: RunText,
    stage: RunStage<Seq<u8>, Seq<char>>,
    events: Seq<RunEvent<Seq<u8>, Seq<char>>>,
) -> bool {
    let n = events.len();
    let locked = found_script(events) && took_lock(events);
    let ready = locked && made_ready(events);
    match stage {
        RunStage::CheckExists => n == 0,
        RunStage::CheckKind => n == 1 && events[0] == RunEvent::<Seq<u8>, Seq<char>>::Exists(true),
        RunStage::CheckOpen => n == 2 && events[0] == RunEvent::<Seq<u8>, Seq<char>>::Exists(true)
            && events[1] == RunEvent::<Seq<u8>, Seq<char>>::Kind(Some(true)),
        RunStage::CheckLength => n == 3 && events[0] == RunEvent::<Seq<u8>, Seq<char>>::Exists(true)
            && events[1] == RunEvent::<Seq<u8>, Seq<char>>::Kind(Some(true)) && events[2]
            == RunEvent::<Seq<u8>, Seq<char>>::Opened(true),
        RunStage::CreateLock => n == 4 && found_script(events),
        RunStage::TakeLock => n == 5 && found_script(events) && events[4] == RunEvent::<
            Seq<u8>,
            Seq<char>,
        >::LockCreated,
        RunStage::Validate => n == 6 && locked,
        RunStage::Locate => n == 7 && locked && events[6] == RunEvent::<
            Seq<u8>,
            Seq<char>,
        >::Validated(true),
        RunStage::CopyScript { script, snapshot } => n == 8 && locked && events[6] == RunEvent::<
            Seq<u8>,
            Seq<char>,
        >::Validated(true) && copies_are(config, events, script, snapshot),
        RunStage::CopySnapshot { script, snapshot } => n == 9 && locked && events[6] == RunEvent::<
            Seq<u8>,
            Seq<char>,
        >::Validated(true) && copies_are(config, events, script, snapshot) && events[8]
            == RunEvent::<Seq<u8>, Seq<char>>::Copied(true),
        RunStage::Execute { script, snapshot } => n == 10 && ready && copies_are(
            config,
            events,
            script,
            snapshot,
        ),
        RunStage::CleanUp { script, snapshot, success, code, stderr } => n == 11 && ready
            && copies_are(config, events, script, snapshot) && events[10] == (RunEvent::<
            Seq<u8>,
            Seq<char>,
        >::Exited { success, code, stderr }),
        RunStage::Ask { success, code, stderr } => n == 12 && ready && events[10] == (RunEvent::<
            Seq<u8>,
            Seq<char>,
        >::Exited { success, code, stderr }) && events[11] == (RunEvent::<
            Seq<u8>,
            Seq<char>,
        >::Cleaned { interrupted: true }),
        RunStage::Succeeded { code } => ready && n >= 12 && (events[10] matches RunEvent::Exited {
            success,
            code: c,
            stderr,
        } && c == code && (passed(config.strict, success, stderr) || (n == 13 && events[11] == (
        RunEvent::<Seq<u8>, Seq<char>>::Cleaned { interrupted: true }) && (
        events[12] matches RunEvent::Answer(answer) && text::confirms(answer)))) && (n == 12 ||
        events[11] == (RunEvent::<Seq<u8>, Seq<char>>::Cleaned { interrupted: true }))),
        RunStage::Failed { code, stderr } => ready && n >= 12 && (
        events[10] matches RunEvent::Exited { success, code: c, stderr: e } && c == code && e
            == stderr && !passed(config.strict, success, stderr) && (events[11] == (RunEvent::<
            Seq<u8>,
            Seq<char>,
        >::Cleaned { interrupted: false }) || n == 13 && (events[12] matches RunEvent::Answer(
            answer,
        ) && !text::confirms(answer)))),
        RunStage::Refused(refusal) => match refusal {
            Refusal::NoFile => n == 1,
            Refusal::NotAFile => n == 2,
            Refusal::NotReadable => n == 3,
            Refusal::Empty => n == 4,
            Refusal::Busy => n == 6 && events[5] == RunEvent::<Seq<u8>, Seq<char>>::Locked(false),
            Refusal::Invalid => n == 7 && locked,
            Refusal::NoCopies => n >= 9 && locked,
        },
    }
}

proof fn lemma_history(config: RunText, events: Seq<RunEvent<Seq<u8>, Seq<char>>>)
    ensures
        after(config, events) matches Some(stage) ==> history(config, stage, events),
    decreases events.len(),
{
    if events.len() > 0 {
        let before = events.drop_last();
        lemma_history(config, before);
        assert(forall|i: int| 0 <= i < before.len() ==> before[i] == events[i]);
    }
}

proof fn lemma_prefix(config: RunText, events: Seq<RunEvent<Seq<u8>, Seq<char>>>, n: int)
    requires
        after(config, events) is Some,
        0 <= n <= events.len(),
    ensures
        after(config, events.take(n)) matches Some(stage) && (n < events.len() ==> fits(
            config,
            stage,
            events[n],
        )),
    decreases events.len(),
{
    if n == events.len() {
        assert(events.take(n) == events);
    } else {
        assert(events.take(n) == events.drop_last().take(n));
        lemma_prefix(config, events.drop_last(), n);
        if n == events.len() - 1 {
            assert(events.take(n) == events.drop_last());
        } else {
            assert(events.drop_last()[n] == events[n]);
        }
    }
}

/// A program is started only for a script that is a readable file, is not
/// empty, is not being run by another instance, passed its syntax check and was
/// copied.
pub proof fn law_only_checked_scripts_run(
    config: RunText,
    events: Seq<RunEvent<Seq<u8>, Seq<char>>>,
)
    requires
        after(config, events) matches Some(stage) && is_executed(stage),
    ensures
        found_script(events),
        took_lock(events),
        made_ready(events),
{
    lemma_history(config, events);
}

/// What is executed is a copy of the script made in this run, and when the
/// program has ended both copies and the lock file are removed before anything
/// else is done.
pub proof fn law_copies_are_run_and_removed(
    config: RunText,
    events: Seq<RunEvent<Seq<u8>, Seq<char>>>,
)
    requires
        after(config, events) matches Some(stage) && is_executed(stage),
    ensures
        ({
            let place = events[7];
            let script = script_copy(config, place->temp_dir, place->nanos);
            let snapshot = snapshot_copy(config, place->temp_dir, place->nanos);
            &&& after(config, events.take(8)) matches Some(stage) && request_of(config, stage) == (
            RunRequest::<Seq<u8>, Seq<char>, Seq<Seq<char>>>::Copy {
                from: config.file,
                to: script,
            })
            &&& after(config, events.take(9)) matches Some(stage) && request_of(config, stage) == (
            RunRequest::<Seq<u8>, Seq<char>, Seq<Seq<char>>>::Copy {
                from: config.file,
                to: snapshot,
            })
            &&& after(config, events.take(10)) matches Some(stage) && (request_of(config, stage)
                matches RunRequest::Execute { script: executed, .. } && executed == script)
            &&& events.len() >= 11 ==> (after(config, events.take(11)) matches Some(stage)
                && request_of(config, stage) == (RunRequest::<
                Seq<u8>,
                Seq<char>,
                Seq<Seq<char>>,
            >::CleanUp { script, snapshot, lock: lock_path(config) }))
        }),
{
    lemma_history(config, events);
    lemma_at(config, events, 8);
    lemma_at(config, events, 9);
    lemma_at(config, events, 10);
    if events.len() >= 11 {
        lemma_at(config, events, 11);
    }
}

proof fn lemma_at(config: RunText, events: Seq<RunEvent<Seq<u8>, Seq<char>>>, n: int)
    requires
        after(config, events) matches Some(stage) && is_executed(stage),
        8 <= n <= 11,
        n <= events.len(),
    ensures
        after(config, events.take(n)) matches Some(stage) && history(
            config,
            stage,
            events.take(n),
        ) && (n == 8 ==> stage is CopyScript) && (n == 9 ==> stage is CopySnapshot) && (n == 10
            ==> stage is Execute) && (n == 11 ==> stage is CleanUp),
        events.take(n)[7] == events[7],
{
    lemma_history(config, events);
    lemma_prefix(config, events, n);
    lemma_history(config, events.take(n));
    assert(forall|i: int| 0 <= i < n ==> events.take(n)[i] == events[i]);
    if n == events.len() {
        assert(events.take(n) == events);
    }
}

/// A run that is given up removes the lock file exactly if it holds the lock:
/// the lock file of another instance stays.
pub proof fn law_own_lock_is_released(
    config: RunText,
    events: Seq<RunEvent<Seq<u8>, Seq<char>>>,
)
    requires
        after(config, events) matches Some(stage) && stage is Refused,
    ensures
        after(config, events) matches Some(stage) && (request_of(config, stage)
            matches RunRequest::Refuse { unlock, .. } && (unlock == Some(lock_path(config)) || unlock
            is None) && (unlock is Some <==> took_lock(events))),
{
    lemma_history(config, events);
}

/// Something is archived only if the program ended well, or said nothing on its
/// standard error and the user is not strict, or else the user interrupted it
/// and then asked for the archive. In every other case nothing is archived.
pub proof fn law_success_is_earned(config: RunText, events: Seq<RunEvent<Seq<u8>, Seq<char>>>)
    requires
        after(config, events) matches Some(stage) && (stage is Succeeded || stage is Failed),
    ensures
        events[10] matches RunEvent::Exited { success, code, stderr } && (after(config, events)->0
            is Succeeded <==> passed(config.strict, success, stderr) || (events.len() == 13 && (
        events[12] matches RunEvent::Answer(answer) && text::confirms(answer)))),
        events.len() == 13 ==> events[11] == (RunEvent::<Seq<u8>, Seq<char>>::Cleaned {
            interrupted: true,
        }),
{
    lemma_history(config, events);
    if events.len() == 13 {
        lemma_prefix(config, events, 12);
        lemma_history(config, events.take(12));
        assert(forall|i: int| 0 <= i < 12 ==> events.take(12)[i] == events[i]);
    }
}

/// The two copies of a script are different files.
pub proof fn law_copies_are_kept_apart(config: RunText, temp_dir: Seq<u8>, nanos: u128)
    ensures
        script_copy(config, temp_dir, nanos) != snapshot_copy(config, temp_dir, nanos),
{
    reveal_strlit("va_exec_");
    reveal_strlit("va_snapshot_");
    is_ascii_chars_encode_utf8("va_exec_"@);
    is_ascii_chars_encode_utf8("va_snapshot_"@);
    let script = temp_name("va_exec_"@, nanos, config);
    let snapshot = temp_name("va_snapshot_"@, nanos, config);
    assert(script[0] == 118 && snapshot[0] == 118);
    assert(snapshot.len() == script.len() + 4);
    assert(paths::joined(temp_dir, snapshot).len() == paths::joined(temp_dir, script).len() + 4);
}

/// After the first `n` of the events the run asks for `request`.
pub open spec fn asks(
    config: RunText,
    events: Seq<RunEvent<Seq<u8>, Seq<char>>>,
    n: int,
    request: RunRequest<Seq<u8>, Seq<char>, Seq<Seq<char>>>,
) -> bool {
    after(config, events.take(n)) matches Some(stage) && request_of(config, stage) == request
}

proof fn lemma_step(config: RunText, events: Seq<RunEvent<Seq<u8>, Seq<char>>>, n: int)
    requires
        0 <= n < events.len(),
    ensures
        after(config, events.take(n + 1)) == match after(config, events.take(n)) {
            Some(stage) => if fits(config, stage, events[n]) {
                Some(next(config, stage, events[n]))
            } else {
                None
            },
            None => None,
        },
{
    assert(events.take(n + 1).drop_last() == events.take(n));
    assert(events.take(n + 1).last() == events[n]);
}

/// The events up to the start of the program, if every check goes well.
pub open spec fn ready(
    length: u64,
    temp_dir: Seq<u8>,
    nanos: u128,
) -> Seq<RunEvent<Seq<u8>, Seq<char>>> {
    seq![
        RunEvent::Exists(true),
        RunEvent::Kind(Some(true)),
        RunEvent::Opened(true),
        RunEvent::Length(Some(length)),
        RunEvent::LockCreated,
        RunEvent::Locked(true),
        RunEvent::Validated(true),
        RunEvent::Located { temp_dir, nanos },
        RunEvent::Copied(true),
        RunEvent::Copied(true),
    ]
}

/// The course of a run in which every check goes well: the checks of the script,
/// the lock beside it, two copies of it in the directory for temporary files that
/// carry the time and its name, and then the program, with the first copy and the
/// script's arguments.
pub proof fn law_course_of_checks(
    config: RunText,
    length: u64,
    temp_dir: Seq<u8>,
    nanos: u128,
    name: Seq<u8>,
)
    requires
        length > 0,
        paths::file_name_of(encode_utf8(config.file)) == Some(name),
    ensures
        ({
            let events = ready(length, temp_dir, nanos);
            let stamp = encode_utf8(text::decimal(nanos as nat)) + seq![95u8] + name;
            let script = paths::joined(temp_dir, encode_utf8("va_exec_"@) + stamp);
            let snapshot = paths::joined(temp_dir, encode_utf8("va_snapshot_"@) + stamp);
            let file = config.file;
            &&& asks(config, events, 0, RunRequest::CheckExists { path: file })
            &&& asks(config, events, 1, RunRequest::CheckKind { path: file })
            &&& asks(config, events, 2, RunRequest::CheckOpen { path: file })
            &&& asks(config, events, 3, RunRequest::CheckLength { path: file })
            &&& asks(config, events, 4, RunRequest::CreateLock { path: file + ".lock"@ })
            &&& asks(config, events, 5, RunRequest::TakeLock)
            &&& asks(config, events, 6, RunRequest::Validate { path: file })
            &&& asks(config, events, 7, RunRequest::Locate)
            &&& asks(config, events, 8, RunRequest::Copy { from: file, to: script })
            &&& asks(config, events, 9, RunRequest::Copy { from: file, to: snapshot })
            &&& asks(
                config,
                events,
                10,
                RunRequest::Execute {
                    message: "Running program: "@ + config.command,
                    program: config.command,
                    script,
                    args: config.script_args,
                },
            )
            &&& after(config, events) == Some(
                RunStage::<Seq<u8>, Seq<char>>::Execute { script, snapshot },
            )
        }),
{
    let events = ready(length, temp_dir, nanos);
    lemma_copies(config, temp_dir, nanos, name);
    lemma_step(config, events, 0);
    lemma_step(config, events, 1);
    lemma_step(config, events, 2);
    lemma_step(config, events, 3);
    lemma_step(config, events, 4);
    lemma_step(config, events, 5);
    lemma_step(config, events, 6);
    lemma_step(config, events, 7);
    lemma_step(config, events, 8);
    lemma_step(config, events, 9);
    assert(events.take(0) == Seq::<RunEvent<Seq<u8>, Seq<char>>>::empty());
    assert(events.take(10) == events);
}

proof fn lemma_copies(config: RunText, temp_dir: Seq<u8>, nanos: u128, name: Seq<u8>)
    requires
        paths::file_name_of(encode_utf8(config.file)) == Some(name),
    ensures
        ({
            let stamp = encode_utf8(text::decimal(nanos as nat)) + seq![95u8] + name;
            &&& script_copy(config, temp_dir, nanos) == paths::joined(
                temp_dir,
                encode_utf8("va_exec_"@) + stamp,
            )
            &&& snapshot_copy(config, temp_dir, nanos) == paths::joined(
                temp_dir,
                encode_utf8("va_snapshot_"@) + stamp,
            )
        }),
{
    let digits = encode_utf8(text::decimal(nanos as nat));
    let exec = encode_utf8("va_exec_"@);
    let snap = encode_utf8("va_snapshot_"@);
    reveal_strlit("_");
    is_ascii_chars_encode_utf8("_"@);
    assert(encode_utf8("_"@) =~= seq![95u8]);
    assert(exec + digits + seq![95u8] + name =~= exec + (digits + seq![95u8] + name));
    assert(snap + digits + seq![95u8] + name =~= snap + (digits + seq![95u8] + name));
}

/// What a run comes to once the program has ended: both copies and the lock file
/// are removed, and the results are archived if the program ended with success.
/// If it did not, but wrote nothing to its standard error, they are archived
/// exactly if the user is not strict; and if it wrote anything at all, they are
/// not, strict or not. A user who interrupted the run is asked, and a yes makes it
/// a success whatever the program did.
pub proof fn law_outcome_of_a_run(
    config: RunText,
    length: u64,
    temp_dir: Seq<u8>,
    nanos: u128,
    name: Seq<u8>,
    success: bool,
    code: Option<i32>,
    stderr: Seq<char>,
    answer: Seq<char>,
    later: RunEvent<Seq<u8>, Seq<char>>,
)
    requires
        length > 0,
        paths::file_name_of(encode_utf8(config.file)) == Some(name),
    ensures
        ({
            let stamp = encode_utf8(text::decimal(nanos as nat)) + seq![95u8] + name;
            let script = paths::joined(temp_dir, encode_utf8("va_exec_"@) + stamp);
            let snapshot = paths::joined(temp_dir, encode_utf8("va_snapshot_"@) + stamp);
            let exited = ready(length, temp_dir, nanos).push(
                RunEvent::Exited { success, code, stderr },
            );
            let cleaned = exited.push(RunEvent::Cleaned { interrupted: false });
            let asked = exited.push(RunEvent::Cleaned { interrupted: true });
            let answered = asked.push(RunEvent::Answer(answer));
            let number = match code {
                Some(code) => "Some("@ + text::signed_decimal(code as int) + ")"@,
                None => "None"@,
            };
            let archive = RunRequest::<Seq<u8>, Seq<char>, Seq<Seq<char>>>::Archive {
                message: "✔ SUCCESS (exit code "@ + number + ")"@,
            };
            let fail = RunRequest::<Seq<u8>, Seq<char>, Seq<Seq<char>>>::Fail {
                message: "✖ FAILURE (exit code: "@ + number + ")"@,
                detail: if stderr.len() > 0 {
                    Some("Error output:\n"@ + stderr)
                } else {
                    None
                },
                status: 1,
            };
            &&& asks(
                config,
                exited,
                11,
                RunRequest::CleanUp { script, snapshot, lock: config.file + ".lock"@ },
            )
            &&& success ==> asks(config, cleaned, 12, archive)
            &&& !success && stderr.len() > 0 ==> asks(config, cleaned, 12, fail)
            &&& !success && stderr.len() == 0 && config.strict ==> asks(config, cleaned, 12, fail)
            &&& !success && stderr.len() == 0 && !config.strict ==> asks(
                config,
                cleaned,
                12,
                archive,
            )
            &&& asks(
                config,
                asked,
                12,
                RunRequest::Ask {
                    prompt: "\nExecution interrupted. Archive results? [y/N]: "@,
                },
            )
            &&& text::confirms(answer) ==> asks(config, answered, 13, archive)
            &&& !text::confirms(answer) && success ==> asks(config, answered, 13, archive)
            &&& !text::confirms(answer) && !success && (stderr.len() > 0 || config.strict) ==> asks(
                config,
                answered,
                13,
                fail,
            )
            &&& !text::confirms(answer) && !success && stderr.len() == 0 && !config.strict ==> asks(
                config,
                answered,
                13,
                archive,
            )
            &&& !fits(config, after(config, cleaned)->0, later)
            &&& !fits(config, after(config, answered)->0, later)
        }),
{
    let events = ready(length, temp_dir, nanos);
    let exited = events.push(RunEvent::Exited { success, code, stderr });
    let cleaned = exited.push(RunEvent::Cleaned { interrupted: false });
    let asked = exited.push(RunEvent::Cleaned { interrupted: true });
    let answered = asked.push(RunEvent::Answer(answer));
    law_course_of_checks(config, length, temp_dir, nanos, name);
    assert(exited.drop_last() =~= events);
    assert(cleaned.drop_last() =~= exited);
    assert(asked.drop_last() =~= exited);
    assert(answered.drop_last() =~= asked);
    assert(exited.take(11) =~= exited);
    assert(cleaned.take(12) =~= cleaned);
    assert(asked.take(12) =~= asked);
    assert(answered.take(13) =~= answered);
}

/// A check that does not go well ends the run at once, with its own message and
/// the exit status one, and before the program is started. The lock file is
/// removed if this run has taken the lock, and stays if it has not.
pub proof fn law_checks_end_the_run(
    config: RunText,
    length: u64,
    temp_dir: Seq<u8>,
    nanos: u128,
    name: Seq<u8>,
    later: RunEvent<Seq<u8>, Seq<char>>,
)
    requires
        length > 0,
        paths::file_name_of(encode_utf8(config.file)) == Some(name),
    ensures
        ({
            let all = ready(length, temp_dir, nanos);
            let file = config.file;
            let lock = Some(file + ".lock"@);
            let refused = |
                n: int,
                event: RunEvent<Seq<u8>, Seq<char>>,
                message: Seq<char>,
                unlock: Option<Seq<char>>,
            |
                asks(
                    config,
                    all.take(n).push(event),
                    n + 1,
                    RunRequest::Refuse { message, unlock, status: 1 },
                ) && !fits(config, after(config, all.take(n).push(event))->0, later);
            let empty = "Error: File '"@ + file + "' is empty. Skipping execution."@;
            let no_file = "Error: Path '"@ + file + "' is not a file."@;
            let no_copies = "Error creating temporary execution copies."@;
            &&& refused(
                0,
                RunEvent::Exists(false),
                "Error: File '"@ + file + "' does not exist."@,
                None,
            )
            &&& refused(1, RunEvent::Kind(Some(false)), no_file, None)
            &&& refused(1, RunEvent::Kind(None), no_file, None)
            &&& refused(
                2,
                RunEvent::Opened(false),
                "Error: File '"@ + file + "' is not readable."@,
                None,
            )
            &&& refused(3, RunEvent::Length(Some(0)), empty, None)
            &&& refused(3, RunEvent::Length(None), empty, None)
            &&& refused(
                5,
                RunEvent::Locked(false),
                "Error: Another instance is already testing file '"@ + file + "'."@,
                None,
            )
            &&& refused(
                6,
                RunEvent::Validated(false),
                "Error: Script '"@ + file + "' failed syntax validation."@,
                lock,
            )
            &&& refused(8, RunEvent::Copied(false), no_copies, lock)
            &&& refused(9, RunEvent::Copied(false), no_copies, lock)
        }),
{
    let all = ready(length, temp_dir, nanos);
    law_course_of_checks(config, length, temp_dir, nanos, name);
    lemma_steps_to(config, all);
    lemma_pushed(config, all, 0, RunEvent::Exists(false));
    lemma_pushed(config, all, 1, RunEvent::Kind(Some(false)));
    lemma_pushed(config, all, 1, RunEvent::Kind(None));
    lemma_pushed(config, all, 2, RunEvent::Opened(false));
    lemma_pushed(config, all, 3, RunEvent::Length(Some(0)));
    lemma_pushed(config, all, 3, RunEvent::Length(None));
    lemma_pushed(config, all, 5, RunEvent::Locked(false));
    lemma_pushed(config, all, 6, RunEvent::Validated(false));
    lemma_pushed(config, all, 8, RunEvent::Copied(false));
    lemma_pushed(config, all, 9, RunEvent::Copied(false));
}

proof fn lemma_steps_to(config: RunText, all: Seq<RunEvent<Seq<u8>, Seq<char>>>)
    requires
        all.len() == 10,
    ensures
        forall|n: int|
            0 <= n < 10 ==> after(config, (#[trigger] all.take(n + 1))) == match after(
                config,
                all.take(n),
            ) {
                Some(stage) => if fits(config, stage, all[n]) {
                    Some(next(config, stage, all[n]))
                } else {
                    None
                },
                None => None,
            },
{
    assert forall|n: int|
        0 <= n < 10 implies after(config, (#[trigger] all.take(n + 1))) == match after(
        config,
        all.take(n),
    ) {
        Some(stage) => if fits(config, stage, all[n]) {
            Some(next(config, stage, all[n]))
        } else {
            None
        },
        None => None,
    } by {
        lemma_step(config, all, n);
    }
}

proof fn lemma_pushed(
    config: RunText,
    all: Seq<RunEvent<Seq<u8>, Seq<char>>>,
    n: int,
    event: RunEvent<Seq<u8>, Seq<char>>,
)
    requires
        0 <= n <= all.len(),
    ensures
        after(config, all.take(n).push(event)) == match after(config, all.take(n)) {
            Some(stage) => if fits(config, stage, event) {
                Some(next(config, stage, event))
            } else {
                None
            },
            None => None,
        },
        all.take(n).push(event).take(n + 1) == all.take(n).push(event),
{
    let events = all.take(n).push(event);
    assert(events.drop_last() =~= all.take(n));
    assert(events.last() == event);
    assert(events.take(n + 1) =~= events);
}

/// The contracts see everything that these values hold, as it is: nothing is left
/// out, and nothing is changed but that bytes and texts are taken as sequences.
pub proof fn law_views_show_everything(
    run_config: RunConfig,
    run_stage: RunStage<Vec<u8>, String>,
    run_event: RunEvent<Vec<u8>, String>,
    run_request: RunRequest<Vec<u8>, String, Vec<String>>,
)
    ensures
        run_config@ == (RunText {
            command: run_config.command@,
            file: run_config.file@,
            script_args: command::texts(run_config.script_args@),
            strict: run_config.strict,
            watch: bytes_of(run_config.watch),
        }),
        run_stage@ == (match run_stage {
            RunStage::CheckExists => RunStage::CheckExists,
            RunStage::CheckKind => RunStage::CheckKind,
            RunStage::CheckOpen => RunStage::CheckOpen,
            RunStage::CheckLength => RunStage::CheckLength,
            RunStage::CreateLock => RunStage::CreateLock,
            RunStage::TakeLock => RunStage::TakeLock,
            RunStage::Validate => RunStage::Validate,
            RunStage::Locate => RunStage::Locate,
            RunStage::CopyScript { script, snapshot } => RunStage::CopyScript {
                script: script@,
                snapshot: snapshot@,
            },
            RunStage::CopySnapshot { script, snapshot } => RunStage::CopySnapshot {
                script: script@,
                snapshot: snapshot@,
            },
            RunStage::Execute { script, snapshot } => RunStage::Execute {
                script: script@,
                snapshot: snapshot@,
            },
            RunStage::CleanUp { script, snapshot, success, code, stderr } => RunStage::CleanUp {
                script: script@,
                snapshot: snapshot@,
                success,
                code,
                stderr: stderr@,
            },
            RunStage::Ask { success, code, stderr } => RunStage::Ask {
                success,
                code,
                stderr: stderr@,
            },
            RunStage::Refused(refusal) => RunStage::Refused(refusal),
            RunStage::Succeeded { code } => RunStage::Succeeded { code },
            RunStage::Failed { code, stderr } => RunStage::Failed { code, stderr: stderr@ },
        }),
        run_event@ == (match run_event {
            RunEvent::Exists(yes) => RunEvent::Exists(yes),
            RunEvent::Kind(kind) => RunEvent::Kind(kind),
            RunEvent::Opened(yes) => RunEvent::Opened(yes),
            RunEvent::Length(length) => RunEvent::Length(length),
            RunEvent::LockCreated => RunEvent::LockCreated,
            RunEvent::Locked(yes) => RunEvent::Locked(yes),
            RunEvent::Validated(yes) => RunEvent::Validated(yes),
            RunEvent::Located { temp_dir, nanos } => RunEvent::Located {
                temp_dir: temp_dir@,
                nanos,
            },
            RunEvent::Copied(yes) => RunEvent::Copied(yes),
            RunEvent::Exited { success, code, stderr } => RunEvent::Exited {
                success,
                code,
                stderr: stderr@,
            },
            RunEvent::Cleaned { interrupted } => RunEvent::Cleaned { interrupted },
            RunEvent::Answer(answer) => RunEvent::Answer(answer@),
        }),
        run_request@ == (match run_request {
            RunRequest::CheckExists { path } => RunRequest::CheckExists { path: path@ },
            RunRequest::CheckKind { path } => RunRequest::CheckKind { path: path@ },
            RunRequest::CheckOpen { path } => RunRequest::CheckOpen { path: path@ },
            RunRequest::CheckLength { path } => RunRequest::CheckLength { path: path@ },
            RunRequest::CreateLock { path } => RunRequest::CreateLock { path: path@ },
            RunRequest::TakeLock => RunRequest::TakeLock,
            RunRequest::Validate { path } => RunRequest::Validate { path: path@ },
            RunRequest::Locate => RunRequest::Locate,
            RunRequest::Copy { from, to } => RunRequest::Copy { from: from@, to: to@ },
            RunRequest::Execute { message, program, script, args } => RunRequest::Execute {
                message: message@,
                program: program@,
                script: script@,
                args: command::texts(args@),
            },
            RunRequest::CleanUp { script, snapshot, lock } => RunRequest::CleanUp {
                script: script@,
                snapshot: snapshot@,
                lock: lock@,
            },
            RunRequest::Ask { prompt } => RunRequest::Ask { prompt: prompt@ },
            RunRequest::Refuse { message, unlock, status } => RunRequest::Refuse {
                message: message@,
                unlock: text::text_of(unlock),
                status,
            },
            RunRequest::Archive { message } => RunRequest::Archive { message: message@ },
            RunRequest::Fail { message, detail, status } => RunRequest::Fail {
                message: message@,
                detail: text::text_of(detail),
                status,
            },
        }),
{
}

/// A path that may be missing is taken as its bytes, if it is there.
pub proof fn law_missing_path_stays_missing(path: Vec<u8>)
    ensures
        bytes_of(Some(path)) == Some(path@),
        bytes_of(None) == None::<Seq<u8>>,
{
}

} // verus!
