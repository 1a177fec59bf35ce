//! Publishing an archive that is kept in a Git repository: the commands, what
//! their outcomes mean, and the order in which they run.
//!
//! The outcome of a command is whether it ended with success, unless it could not
//! be started.

use vstd::prelude::*;

use crate::command::{CommandLine, CommandText};
use crate::text;

verus! {

/// The command that asks whether a directory lies in a working tree.
pub fn git_repo_command() -> (line: CommandLine)
    ensures
        line@.program == "git"@,
        line@.args == seq!["rev-parse"@, "--is-inside-work-tree"@],
{
    CommandLine::new("git").arg("rev-parse").arg("--is-inside-work-tree")
}

/// Whether the directory that `git_repo_command` was run in lies in a working
/// tree; not if Git could not be started.
pub fn check_git_repo(outcome: Option<bool>) -> (yes: bool)
    ensures
        yes == (outcome == Some(true)),
{
    match outcome {
        Some(success) => success,
        None => false,
    }
}

/// The command that asks whether the working tree has changes.
pub fn git_dirty_command() -> (line: CommandLine)
    ensures
        line@.program == "git"@,
        line@.args == seq!["diff"@, "--quiet"@],
{
    CommandLine::new("git").arg("diff").arg("--quiet")
}

/// Whether the working tree has changes, by the outcome of
/// `git_dirty_command`; not if Git could not be started.
pub fn check_git_dirty(outcome: Option<bool>) -> (yes: bool)
    ensures
        yes == (outcome == Some(false)),
{
    match outcome {
        Some(success) => !success,
        None => false,
    }
}

/// The command that asks the SSH agent for its keys. There is nothing to ask
/// where the agent's socket is not named in the environment.
pub fn ssh_agent_check(socket_named: bool) -> (line: Option<CommandLine>)
    ensures
        line is Some <==> socket_named,
        line matches Some(l) ==> l@.program == "ssh-add"@ && l@.args == seq!["-l"@],
{
    if socket_named {
        Some(CommandLine::new("ssh-add").arg("-l"))
    } else {
        None
    }
}

/// Whether an SSH agent with keys is there: its socket is named in the
/// environment, and the command of `ssh_agent_check` ended with success.
pub fn check_ssh_agent(socket_named: bool, outcome: Option<bool>) -> (yes: bool)
    ensures
        yes == (socket_named && outcome == Some(true)),
{
    socket_named && match outcome {
        Some(success) => success,
        None => false,
    }
}

/// How publishing ends.
#[derive(PartialEq, Eq, Debug)]
pub enum PushEnd<T> {
    /// The working tree had changes, and nothing was done.
    Dirty,
    PullFailed,
    NothingToCommit,
    CommitFailed,
    PushFailed,
    Pushed,
    /// A command could not be started.
    NotStarted { error: T },
}

/// What publishing waits for.
#[derive(PartialEq, Eq, Debug)]
pub enum PushStage<T> {
    CheckTree,
    Pull,
    Add,
    CheckStaged,
    ReadClock,
    Commit { at: u64 },
    Push,
    Ended(PushEnd<T>),
}

/// What happened.
#[derive(PartialEq, Eq, Debug)]
pub enum PushEvent<T> {
    /// The outcome of the command that was asked for, or why it could not be
    /// started.
    Outcome(Result<bool, T>),
    /// The time, in seconds from the Unix epoch.
    Clock(u64),
}

/// What has to be done next.
#[derive(PartialEq, Eq, Debug)]
pub enum PushRequest<T, C> {
    /// Run the command in the repository.
    Run { line: C },
    ReadClock,
    /// Say how it ended: well.
    Finish { message: T },
    /// Report the error.
    Fail { error: T },
}

/// The publishing of an archive.
#[derive(PartialEq, Eq, Debug)]
pub struct PushJob {
    pub stage: PushStage<String>,
}

impl View for PushEnd<String> {
    type V = PushEnd<Seq<char>>;

    open spec fn view(&self) -> PushEnd<Seq<char>> {
        match *self {
            PushEnd::Dirty => PushEnd::Dirty,
            PushEnd::PullFailed => PushEnd::PullFailed,
            PushEnd::NothingToCommit => PushEnd::NothingToCommit,
            PushEnd::CommitFailed => PushEnd::CommitFailed,
            PushEnd::PushFailed => PushEnd::PushFailed,
            PushEnd::Pushed => PushEnd::Pushed,
            PushEnd::NotStarted { error } => PushEnd::NotStarted { error: error@ },
        }
    }
}

impl View for PushStage<String> {
    type V = PushStage<Seq<char>>;

    open spec fn view(&self) -> PushStage<Seq<char>> {
        match *self {
            PushStage::CheckTree => PushStage::CheckTree,
            PushStage::Pull => PushStage::Pull,
            PushStage::Add => PushStage::Add,
            PushStage::CheckStaged => PushStage::CheckStaged,
            PushStage::ReadClock => PushStage::ReadClock,
            PushStage::Commit { at } => PushStage::Commit { at },
            PushStage::Push => PushStage::Push,
            PushStage::Ended(end) => PushStage::Ended(end@),
        }
    }
}

/// The outcome of a command, as the contracts speak of it.
pub open spec fn outcome_of(outcome: Result<bool, String>) -> Result<bool, Seq<char>> {
    match outcome {
        Ok(success) => Ok(success),
        Err(error) => Err(error@),
    }
}

impl View for PushEvent<String> {
    type V = PushEvent<Seq<char>>;

    open spec fn view(&self) -> PushEvent<Seq<char>> {
        match *self {
            PushEvent::Outcome(outcome) => PushEvent::Outcome(outcome_of(outcome)),
            PushEvent::Clock(at) => PushEvent::Clock(at),
        }
    }
}

impl View for PushRequest<String, CommandLine> {
    type V = PushRequest<Seq<char>, CommandText>;

    open spec fn view(&self) -> PushRequest<Seq<char>, CommandText> {
        match *self {
            PushRequest::Run { line } => PushRequest::Run { line: line@ },
            PushRequest::ReadClock => PushRequest::ReadClock,
            PushRequest::Finish { message } => PushRequest::Finish { message: message@ },
            PushRequest::Fail { error } => PushRequest::Fail { error: error@ },
        }
    }
}

/// The event answers what the stage waits for.
pub open spec fn fits(stage: PushStage<Seq<char>>, event: PushEvent<Seq<char>>) -> bool {
    match stage {
        PushStage::Ended(_) => false,
        PushStage::ReadClock => event is Clock,
        _ => event is Outcome,
    }
}

/// `then` if the command ended with success, `otherwise` if it did not, and the
/// end if it could not be started.
pub open spec fn on_outcome(
    outcome: Result<bool, Seq<char>>,
    then: PushStage<Seq<char>>,
    otherwise: PushStage<Seq<char>>,
) -> PushStage<Seq<char>> {
    match outcome {
        Ok(true) => then,
        Ok(false) => otherwise,
        Err(error) => PushStage::Ended(PushEnd::NotStarted { error }),
    }
}

/// The stage that follows. A tree that could not be checked is not taken to have
/// changes.
pub open spec fn next(
    stage: PushStage<Seq<char>>,
    event: PushEvent<Seq<char>>,
) -> PushStage<Seq<char>> {
    match (stage, event) {
        (PushStage::CheckTree, PushEvent::Outcome(outcome)) => if outcome == Ok::<bool, Seq<char>>(
            false,
        ) {
            PushStage::Ended(PushEnd::Dirty)
        } else {
            PushStage::Pull
        },
        (PushStage::Pull, PushEvent::Outcome(outcome)) => on_outcome(
            outcome,
            PushStage::Add,
            PushStage::Ended(PushEnd::PullFailed),
        ),
        (PushStage::Add, PushEvent::Outcome(outcome)) => on_outcome(
            outcome,
            PushStage::CheckStaged,
            PushStage::CheckStaged,
        ),
        (PushStage::CheckStaged, PushEvent::Outcome(outcome)) => on_outcome(
            outcome,
            PushStage::Ended(PushEnd::NothingToCommit),
            PushStage::ReadClock,
        ),
        (PushStage::ReadClock, PushEvent::Clock(at)) => PushStage::Commit { at },
        (PushStage::Commit { .. }, PushEvent::Outcome(outcome)) => on_outcome(
            outcome,
            PushStage::Push,
            PushStage::Ended(PushEnd::CommitFailed),
        ),
        (PushStage::Push, PushEvent::Outcome(outcome)) => on_outcome(
            outcome,
            PushStage::Ended(PushEnd::Pushed),
            PushStage::Ended(PushEnd::PushFailed),
        ),
        _ => stage,
    }
}

/// To run Git with the arguments.
pub open spec fn git(args: Seq<Seq<char>>) -> PushRequest<Seq<char>, CommandText> {
    PushRequest::Run { line: CommandText { program: "git"@, args } }
}

/// What a stage asks for.
pub open spec fn request_of(
    stage: PushStage<Seq<char>>,
) -> PushRequest<Seq<char>, CommandText> {
    match stage {
        PushStage::CheckTree => git(seq!["diff"@, "--quiet"@]),
        PushStage::Pull => git(seq!["pull"@, "--rebase"@, "origin"@, "main"@]),
        PushStage::Add => git(seq!["add"@, "."@]),
        PushStage::CheckStaged => git(seq!["diff"@, "--cached"@, "--quiet"@]),
        PushStage::ReadClock => PushRequest::ReadClock,
        PushStage::Commit { at } => git(
            seq!["commit"@, "-m"@, "Auto-archive: "@ + text::decimal(at as nat)],
        ),
        PushStage::Push => git(seq!["push"@, "origin"@, "main"@]),
        PushStage::Ended(end) => match end {
            PushEnd::Dirty => PushRequest::Fail {
                error: "Working tree is dirty. Please commit or stash changes before pushing."@,
            },
            PushEnd::PullFailed => PushRequest::Fail { error: "Git pull failed"@ },
            PushEnd::NothingToCommit => PushRequest::Finish {
                message: "ℹ No changes to commit, skipping Git commit/push."@,
            },
            PushEnd::CommitFailed => PushRequest::Fail { error: "Git commit failed"@ },
            PushEnd::PushFailed => PushRequest::Fail { error: "Git push failed"@ },
            PushEnd::Pushed => PushRequest::Finish { message: "🚀 Changes pushed to GitHub."@ },
            PushEnd::NotStarted { error } => PushRequest::Fail { error },
        },
    }
}

/// Starts to publish an archive: to pull, commit everything and push, provided
/// that the working tree has no changes to begin with.
pub fn git_commit_and_push() -> (job: PushJob)
    ensures
        job.stage@ == PushStage::<Seq<char>>::CheckTree,
{
    PushJob { stage: PushStage::CheckTree }
}

fn step_on(
    outcome: Result<bool, String>,
    then: PushStage<String>,
    otherwise: PushStage<String>,
) -> (after: PushStage<String>)
    ensures
        after@ == on_outcome(outcome_of(outcome), then@, otherwise@),
{
    match outcome {
        Ok(success) => if success {
            then
        } else {
            otherwise
        },
        Err(error) => PushStage::Ended(PushEnd::NotStarted { error }),
    }
}

impl PushJob {
    /// What has to be done next.
    pub fn request(&self) -> (request: PushRequest<String, CommandLine>)
        ensures
            request@ == request_of(self.stage@),
    {
        let line = match &self.stage {
            PushStage::CheckTree => git_dirty_command(),
            PushStage::Pull => CommandLine::new("git").arg("pull").arg("--rebase").arg(
                "origin",
            ).arg("main"),
            PushStage::Add => CommandLine::new("git").arg("add").arg("."),
            PushStage::CheckStaged => CommandLine::new("git").arg("diff").arg("--cached").arg(
                "--quiet",
            ),
            PushStage::Commit { at } => {
                let mut message = "Auto-archive: ".to_owned();
                text::push_decimal(&mut message, *at as u128);
                CommandLine::new("git").arg("commit").arg("-m").arg(message.as_str())
            },
            PushStage::Push => CommandLine::new("git").arg("push").arg("origin").arg("main"),
            PushStage::ReadClock => {
                return PushRequest::ReadClock;
            },
            PushStage::Ended(end) => {
                return end_request(end);
            },
        };
        assert(request_of(self.stage@) matches PushRequest::Run { line: l } && l.args
            =~= line@.args);
        PushRequest::Run { line }
    }

    /// The job after an event that answers its request.
    pub fn advance(self, event: PushEvent<String>) -> (after: PushJob)
        requires
            fits(self.stage@, event@),
        ensures
            after.stage@ == next(self.stage@, event@),
    {
        let stage = match (self.stage, event) {
            (PushStage::CheckTree, PushEvent::Outcome(outcome)) => {
                let success: Option<bool> = match outcome {
                    Ok(success) => Some(success),
                    Err(_) => None,
                };
                if check_git_dirty(success) {
                    PushStage::Ended(PushEnd::Dirty)
                } else {
                    PushStage::Pull
                }
            },
            (PushStage::Pull, PushEvent::Outcome(outcome)) => step_on(
                outcome,
                PushStage::Add,
                PushStage::Ended(PushEnd::PullFailed),
            ),
            (PushStage::Add, PushEvent::Outcome(outcome)) => step_on(
                outcome,
                PushStage::CheckStaged,
                PushStage::CheckStaged,
            ),
            (PushStage::CheckStaged, PushEvent::Outcome(outcome)) => step_on(
                outcome,
                PushStage::Ended(PushEnd::NothingToCommit),
                PushStage::ReadClock,
            ),
            (PushStage::ReadClock, PushEvent::Clock(at)) => PushStage::Commit { at },
            (PushStage::Commit { at: _ }, PushEvent::Outcome(outcome)) => step_on(
                outcome,
                PushStage::Push,
                PushStage::Ended(PushEnd::CommitFailed),
            ),
            (PushStage::Push, PushEvent::Outcome(outcome)) => step_on(
                outcome,
                PushStage::Ended(PushEnd::Pushed),
                PushStage::Ended(PushEnd::PushFailed),
            ),
            (stage, _) => stage,
        };
        PushJob { stage }
    }
}

fn end_request(end: &PushEnd<String>) -> (request: PushRequest<String, CommandLine>)
    ensures
        request@ == request_of(PushStage::Ended(end@)),
{
    match end {
        PushEnd::Dirty => PushRequest::Fail {
            error: "Working tree is dirty. Please commit or stash changes before pushing.".to_owned(),
        },
        PushEnd::PullFailed => PushRequest::Fail { error: "Git pull failed".to_owned() },
        PushEnd::NothingToCommit => PushRequest::Finish {
            message: "ℹ No changes to commit, skipping Git commit/push.".to_owned(),
        },
        PushEnd::CommitFailed => PushRequest::Fail { error: "Git commit failed".to_owned() },
        PushEnd::PushFailed => PushRequest::Fail { error: "Git push failed".to_owned() },
        PushEnd::Pushed => PushRequest::Finish {
            message: "🚀 Changes pushed to GitHub.".to_owned(),
        },
        PushEnd::NotStarted { error } => PushRequest::Fail { error: error.clone() },
    }
}

/// Where publishing stands after the events, from its start; nowhere if one of
/// them does not answer what was waited for.
pub open spec fn after(events: Seq<PushEvent<Seq<char>>>) -> Option<PushStage<Seq<char>>>
    decreases events.len(),
{
    if events.len() == 0 {
        Some(PushStage::CheckTree)
    } else {
        match after(events.drop_last()) {
            Some(stage) => if fits(stage, events.last()) {
                Some(next(stage, events.last()))
            } else {
                None
            },
            None => None,
        }
    }
}

/// A command that ended with success, or did not.
pub open spec fn ended(success: bool) -> PushEvent<Seq<char>> {
    PushEvent::Outcome(Ok(success))
}

/// The command was started.
pub open spec fn is_started(event: PushEvent<Seq<char>>) -> bool {
    event matches PushEvent::Outcome(Ok(_))
}

/// What the events were if they led to the stage.
spec fn history(stage: PushStage<Seq<char>>, events: Seq<PushEvent<Seq<char>>>) -> bool {
    let pulled = events.len() >= 2 && events[0] != ended(false) && events[1] == ended(true);
    let staged = pulled && events.len() >= 4 && is_started(events[2]) && events[3] == ended(false);
    let committed = staged && events.len() >= 6 && events[4] is Clock && events[5] == ended(true);
    match stage {
        PushStage::CheckTree => events.len() == 0,
        PushStage::Pull => events.len() == 1 && events[0] != ended(false),
        PushStage::Add => pulled && events.len() == 2,
        PushStage::CheckStaged => pulled && events.len() == 3 && is_started(events[2]),
        PushStage::ReadClock => staged && events.len() == 4,
        PushStage::Commit { at } => staged && events.len() == 5 && events[4] == PushEvent::<
            Seq<char>,
        >::Clock(at),
        PushStage::Push => committed && events.len() == 6,
        PushStage::Ended(PushEnd::Pushed) => committed && events.len() == 7 && events[6] == ended(
            true,
        ),
        PushStage::Ended(PushEnd::PushFailed) => committed && events.len() == 7 && events[6]
            == ended(false),
        PushStage::Ended(PushEnd::Dirty) => events == seq![ended(false)],
        PushStage::Ended(_) => true,
    }
}

proof fn lemma_history(events: Seq<PushEvent<Seq<char>>>)
    ensures
        after(events) matches Some(stage) ==> history(stage, events),
    decreases events.len(),
{
    if events.len() > 0 {
        let before = events.drop_last();
        lemma_history(before);
        assert(forall|i: int| 0 <= i < before.len() ==> before[i] == events[i]);
        if before.len() == 0 {
            assert(events =~= seq![events.last()]);
        }
    }
}

/// Nothing is pushed unless the tree was not found dirty, the pull succeeded,
/// everything was staged, there was something to commit, and the commit
/// succeeded, in this order; and the commit is named after the time that was
/// read in between.
pub proof fn law_push_comes_last(events: Seq<PushEvent<Seq<char>>>)
    requires
        after(events) matches Some(stage) && (stage is Push || stage == PushStage::<
            Seq<char>,
        >::Ended(PushEnd::Pushed) || stage == PushStage::<Seq<char>>::Ended(PushEnd::PushFailed)),
    ensures
        events.len() >= 6,
        events[0] != ended(false),
        events[1] == ended(true),
        is_started(events[2]),
        events[3] == ended(false),
        events[4] matches PushEvent::Clock(at) && after(events.take(5)) == Some(
            PushStage::<Seq<char>>::Commit { at },
        ),
        events[5] == ended(true),
{
    lemma_history(events);
    lemma_prefix(events, 5);
    lemma_history(events.take(5));
    assert(forall|i: int| 0 <= i < 5 ==> events.take(5)[i] == events[i]);
}

proof fn lemma_prefix(events: Seq<PushEvent<Seq<char>>>, n: int)
    requires
        after(events).is_some(),
        0 <= n <= events.len(),
    ensures
        after(events.take(n)).is_some(),
        n < events.len() ==> !(after(events.take(n)) matches Some(PushStage::Ended(_))),
    decreases events.len(),
{
    if n == events.len() {
        assert(events.take(n) == events);
    } else {
        assert(events.take(n) == events.drop_last().take(n));
        lemma_prefix(events.drop_last(), n);
        if n == events.len() - 1 {
            assert(events.take(n) == events.drop_last());
        }
    }
}

proof fn lemma_first(events: Seq<PushEvent<Seq<char>>>)
    requires
        events.len() > 0,
        events[0] is Outcome,
    ensures
        after(events.take(1)) == Some(next(PushStage::CheckTree, events[0])),
{
    let first = events.take(1);
    assert(first.drop_last() == Seq::<PushEvent<Seq<char>>>::empty());
    assert(first.last() == events[0]);
    assert(after(first.drop_last()) == Some(PushStage::<Seq<char>>::CheckTree));
}

/// A dirty tree ends publishing at once, before anything is pulled, committed
/// or pushed.
pub proof fn law_dirty_tree_is_left_alone(events: Seq<PushEvent<Seq<char>>>)
    requires
        events.len() > 0,
        events[0] == ended(false),
        after(events).is_some(),
    ensures
        events.len() == 1,
        after(events) == Some(PushStage::<Seq<char>>::Ended(PushEnd::Dirty)),
{
    lemma_prefix(events, 1);
    lemma_first(events);
    if events.len() == 1 {
        assert(events.take(1) == events);
    }
}

/// A command that cannot be started, other than the check of the tree, ends
/// publishing with its own error, and no other command is run.
pub proof fn law_start_error_is_reported(
    stage: PushStage<Seq<char>>,
    error: Seq<char>,
    later: PushEvent<Seq<char>>,
)
    requires
        fits(stage, PushEvent::Outcome(Err(error))),
        !(stage is CheckTree),
    ensures
        request_of(next(stage, PushEvent::Outcome(Err(error)))) == (PushRequest::<
            Seq<char>,
            CommandText,
        >::Fail { error }),
        !fits(next(stage, PushEvent::Outcome(Err(error))), later),
{
}

/// Where Git cannot be started at all, the tree does not count as dirty: what is
/// reported is the error of the pull, and no other command is run.
pub proof fn law_missing_git_fails_at_pull(
    at_check: Seq<char>,
    at_pull: Seq<char>,
    later: PushEvent<Seq<char>>,
)
    ensures
        ({
            let events = seq![PushEvent::Outcome(Err(at_check)), PushEvent::Outcome(Err(at_pull))];
            &&& after(events.take(1)) == Some(PushStage::<Seq<char>>::Pull)
            &&& after(events) matches Some(end) && request_of(end) == (PushRequest::<
                Seq<char>,
                CommandText,
            >::Fail { error: at_pull }) && !fits(end, later)
        }),
{
    let events = seq![
        PushEvent::<Seq<char>>::Outcome(Err(at_check)),
        PushEvent::Outcome(Err(at_pull)),
    ];
    lemma_first(events);
    assert(events.drop_last() =~= events.take(1));
}

/// After the first `n` of the events publishing asks for `request`.
pub open spec fn asks(
    events: Seq<PushEvent<Seq<char>>>,
    n: int,
    request: PushRequest<Seq<char>, CommandText>,
) -> bool {
    after(events.take(n)) matches Some(stage) && request_of(stage) == request
}

proof fn lemma_step(events: Seq<PushEvent<Seq<char>>>, n: int)
    requires
        0 <= n < events.len(),
    ensures
        after(events.take(n + 1)) == match after(events.take(n)) {
            Some(stage) => if fits(stage, events[n]) {
                Some(next(stage, events[n]))
            } else {
                None
            },
            None => None,
        },
{
    assert(events.take(n + 1).drop_last() == events.take(n));
    assert(events.take(n + 1).last() == events[n]);
}

/// The course of publishing when there is something to commit and all goes well,
/// whatever adding the files came to: the tree is checked, then come pull, add,
/// the check of what is staged, the commit named after the time, and the push.
pub proof fn law_course_of_publishing(added: bool, at: u64)
    ensures
        ({
            let events = seq![
                PushEvent::Outcome(Ok(true)),
                PushEvent::Outcome(Ok(true)),
                PushEvent::Outcome(Ok(added)),
                PushEvent::Outcome(Ok(false)),
                PushEvent::Clock(at),
                PushEvent::Outcome(Ok(true)),
                PushEvent::Outcome(Ok(true)),
            ];
            let run = |args: Seq<Seq<char>>|
                PushRequest::<Seq<char>, CommandText>::Run {
                    line: CommandText { program: "git"@, args },
                };
            &&& asks(events, 0, run(seq!["diff"@, "--quiet"@]))
            &&& asks(events, 1, run(seq!["pull"@, "--rebase"@, "origin"@, "main"@]))
            &&& asks(events, 2, run(seq!["add"@, "."@]))
            &&& asks(events, 3, run(seq!["diff"@, "--cached"@, "--quiet"@]))
            &&& asks(events, 4, PushRequest::ReadClock)
            &&& asks(
                events,
                5,
                run(seq!["commit"@, "-m"@, "Auto-archive: "@ + text::decimal(at as nat)]),
            )
            &&& asks(events, 6, run(seq!["push"@, "origin"@, "main"@]))
            &&& asks(events, 7, PushRequest::Finish { message: "🚀 Changes pushed to GitHub."@ })
        }),
{
    let events = seq![
        PushEvent::<Seq<char>>::Outcome(Ok(true)),
        PushEvent::Outcome(Ok(true)),
        PushEvent::Outcome(Ok(added)),
        PushEvent::Outcome(Ok(false)),
        PushEvent::Clock(at),
        PushEvent::Outcome(Ok(true)),
        PushEvent::Outcome(Ok(true)),
    ];
    lemma_step(events, 0);
    lemma_step(events, 1);
    lemma_step(events, 2);
    lemma_step(events, 3);
    lemma_step(events, 4);
    lemma_step(events, 5);
    lemma_step(events, 6);
    assert(events.take(0) == Seq::<PushEvent<Seq<char>>>::empty());
}

/// How publishing ends when something does not go well: each command that fails
/// has its own message, having nothing to commit is no failure, and in each case
/// no other command is run. A check of the tree that cannot be started is passed
/// over.
pub proof fn law_publishing_ends_early(
    error: Seq<char>,
    added: bool,
    at: u64,
    later: PushEvent<Seq<char>>,
)
    ensures
        ({
            let fine = PushEvent::<Seq<char>>::Outcome(Ok(true));
            let failed = PushEvent::<Seq<char>>::Outcome(Ok(false));
            let lost = PushEvent::<Seq<char>>::Outcome(Err(error));
            let add = PushEvent::<Seq<char>>::Outcome(Ok(added));
            let clock = PushEvent::<Seq<char>>::Clock(at);
            let ends = |events: Seq<PushEvent<Seq<char>>>, error: Seq<char>|
                asks(events, events.len() as int, PushRequest::Fail { error }) && !fits(
                    after(events)->0,
                    later,
                );
            let nothing = seq![fine, fine, add, fine];
            &&& ends(
                seq![failed],
                "Working tree is dirty. Please commit or stash changes before pushing."@,
            )
            &&& after(seq![lost]) == after(seq![fine])
            &&& ends(seq![fine, failed], "Git pull failed"@)
            &&& ends(seq![fine, fine, add, failed, clock, failed], "Git commit failed"@)
            &&& ends(seq![fine, fine, add, failed, clock, fine, failed], "Git push failed"@)
            &&& ends(seq![fine, lost], error)
            &&& ends(seq![fine, fine, lost], error)
            &&& ends(seq![fine, fine, add, lost], error)
            &&& ends(seq![fine, fine, add, failed, clock, lost], error)
            &&& ends(seq![fine, fine, add, failed, clock, fine, lost], error)
            &&& asks(
                nothing,
                4,
                PushRequest::Finish {
                    message: "ℹ No changes to commit, skipping Git commit/push."@,
                },
            ) && !fits(after(nothing)->0, later)
        }),
{
    let fine = PushEvent::<Seq<char>>::Outcome(Ok(true));
    let failed = PushEvent::<Seq<char>>::Outcome(Ok(false));
    let lost = PushEvent::<Seq<char>>::Outcome(Err(error));
    let add = PushEvent::<Seq<char>>::Outcome(Ok(added));
    let clock = PushEvent::<Seq<char>>::Clock(at);
    let none = Seq::<PushEvent<Seq<char>>>::empty();
    let add_done = seq![fine, fine, add];
    let staged = seq![fine, fine, add, failed];
    let timed = seq![fine, fine, add, failed, clock];
    let committed = seq![fine, fine, add, failed, clock, fine];
    lemma_pushed(none, failed);
    lemma_pushed(none, lost);
    lemma_pushed(none, fine);
    lemma_pushed(seq![fine], failed);
    lemma_pushed(seq![fine], lost);
    lemma_pushed(seq![fine], fine);
    lemma_pushed(seq![fine, fine], lost);
    lemma_pushed(seq![fine, fine], add);
    lemma_pushed(add_done, lost);
    lemma_pushed(add_done, fine);
    lemma_pushed(add_done, failed);
    lemma_pushed(staged, clock);
    lemma_pushed(timed, failed);
    lemma_pushed(timed, lost);
    lemma_pushed(timed, fine);
    lemma_pushed(committed, failed);
    lemma_pushed(committed, lost);
    assert(none.push(failed) =~= seq![failed]);
    assert(none.push(lost) =~= seq![lost]);
    assert(none.push(fine) =~= seq![fine]);
    assert(seq![fine].push(failed) =~= seq![fine, failed]);
    assert(seq![fine].push(lost) =~= seq![fine, lost]);
    assert(seq![fine].push(fine) =~= seq![fine, fine]);
    assert(seq![fine, fine].push(lost) =~= seq![fine, fine, lost]);
    assert(seq![fine, fine].push(add) =~= add_done);
    assert(add_done.push(lost) =~= seq![fine, fine, add, lost]);
    assert(add_done.push(fine) =~= seq![fine, fine, add, fine]);
    assert(add_done.push(failed) =~= staged);
    assert(staged.push(clock) =~= timed);
    assert(timed.push(failed) =~= seq![fine, fine, add, failed, clock, failed]);
    assert(timed.push(lost) =~= seq![fine, fine, add, failed, clock, lost]);
    assert(timed.push(fine) =~= committed);
    assert(committed.push(failed) =~= seq![fine, fine, add, failed, clock, fine, failed]);
    assert(committed.push(lost) =~= seq![fine, fine, add, failed, clock, fine, lost]);
    assert(after(none) == Some(PushStage::<Seq<char>>::CheckTree));
}

proof fn lemma_pushed(events: Seq<PushEvent<Seq<char>>>, event: PushEvent<Seq<char>>)
    ensures
        after(events.push(event)) == match after(events) {
            Some(stage) => if fits(stage, event) {
                Some(next(stage, event))
            } else {
                None
            },
            None => None,
        },
        events.push(event).take(events.len() as int + 1) == events.push(event),
{
    assert(events.push(event).drop_last() =~= events);
    assert(events.push(event).last() == event);
    assert(events.push(event).take(events.len() as int + 1) =~= events.push(event));
}

/// The contracts see everything that these values hold, as it is: nothing is left
/// out, and nothing is changed but that bytes and texts are taken as sequences.
pub proof fn law_views_show_everything(
    push_end: PushEnd<String>,
    push_stage: PushStage<String>,
    push_event: PushEvent<String>,
    push_request: PushRequest<String, CommandLine>,
)
    ensures
        push_end@ == (match push_end {
            PushEnd::Dirty => PushEnd::Dirty,
            PushEnd::PullFailed => PushEnd::PullFailed,
            PushEnd::NothingToCommit => PushEnd::NothingToCommit,
            PushEnd::CommitFailed => PushEnd::CommitFailed,
            PushEnd::PushFailed => PushEnd::PushFailed,
            PushEnd::Pushed => PushEnd::Pushed,
            PushEnd::NotStarted { error } => PushEnd::NotStarted { error: error@ },
        }),
        push_stage@ == (match push_stage {
            PushStage::CheckTree => PushStage::CheckTree,
            PushStage::Pull => PushStage::Pull,
            PushStage::Add => PushStage::Add,
            PushStage::CheckStaged => PushStage::CheckStaged,
            PushStage::ReadClock => PushStage::ReadClock,
            PushStage::Commit { at } => PushStage::Commit { at },
            PushStage::Push => PushStage::Push,
            PushStage::Ended(end) => PushStage::Ended(end@),
        }),
        push_event@ == (match push_event {
            PushEvent::Outcome(outcome) => PushEvent::Outcome(outcome_of(outcome)),
            PushEvent::Clock(at) => PushEvent::Clock(at),
        }),
        push_request@ == (match push_request {
            PushRequest::Run { line } => PushRequest::Run { line: line@ },
            PushRequest::ReadClock => PushRequest::ReadClock,
            PushRequest::Finish { message } => PushRequest::Finish { message: message@ },
            PushRequest::Fail { error } => PushRequest::Fail { error: error@ },
        }),
{
}

/// An outcome is taken as it is, and an error as its text.
pub proof fn law_outcome_is_taken_as_it_is(success: bool, error: String)
    ensures
        outcome_of(Ok(success)) == Ok::<bool, Seq<char>>(success),
        outcome_of(Err(error)) == Err::<bool, Seq<char>>(error@),
{
}

} // verus!
