use validation_archiver::git_helpers::{
    check_git_dirty, check_git_repo, check_ssh_agent, git_commit_and_push, git_dirty_command,
    git_repo_command, ssh_agent_check, PushEvent, PushJob, PushRequest,
};

type Event = PushEvent<String>;

fn outcome(success: bool) -> Event {
    PushEvent::Outcome(Ok(success))
}

fn missing(error: &str) -> Event {
    PushEvent::Outcome(Err(error.to_string()))
}

fn follow(events: Vec<Event>) -> (Vec<String>, PushJob) {
    let mut job = git_commit_and_push();
    let mut commands: Vec<String> = Vec::new();
    for event in events {
        if let PushRequest::Run { line } = job.request() {
            commands.push(format!("{} {}", line.program, line.args.join(" ")));
        }
        job = job.advance(event);
    }
    (commands, job)
}

fn error_after(events: Vec<Event>) -> String {
    match follow(events).1.request() {
        PushRequest::Fail { error } => error,
        other => panic!("{:?}", other),
    }
}

fn message_after(events: Vec<Event>) -> String {
    match follow(events).1.request() {
        PushRequest::Finish { message } => message,
        other => panic!("{:?}", other),
    }
}

#[test]
fn repo_check() {
    let line = git_repo_command();
    assert_eq!(line.program, "git");
    assert_eq!(line.args, vec!["rev-parse", "--is-inside-work-tree"]);
    assert!(check_git_repo(Some(true)));
    assert!(!check_git_repo(Some(false)));
    assert!(!check_git_repo(None));
}

#[test]
fn dirty_check() {
    assert_eq!(git_dirty_command().args, vec!["diff", "--quiet"]);
    assert!(check_git_dirty(Some(false)));
    assert!(!check_git_dirty(Some(true)));
    assert!(!check_git_dirty(None));
}

#[test]
fn agent_check() {
    let line = ssh_agent_check(true).unwrap();
    assert_eq!((line.program.as_str(), line.args), ("ssh-add", vec!["-l".to_string()]));
    assert_eq!(ssh_agent_check(false), None);
    assert!(check_ssh_agent(true, Some(true)));
    assert!(!check_ssh_agent(true, Some(false)));
    assert!(!check_ssh_agent(true, None));
    assert!(!check_ssh_agent(false, Some(true)));
}

#[test]
fn a_push() {
    let events = || {
        vec![
            outcome(true),
            outcome(true),
            outcome(false),
            outcome(false),
            PushEvent::Clock(1700000000),
            outcome(true),
            outcome(true),
        ]
    };
    assert_eq!(
        follow(events()).0,
        vec![
            "git diff --quiet",
            "git pull --rebase origin main",
            "git add .",
            "git diff --cached --quiet",
            "git commit -m Auto-archive: 1700000000",
            "git push origin main",
        ]
    );
    assert_eq!(message_after(events()), "🚀 Changes pushed to GitHub.");
}

#[test]
fn the_clock_is_read_before_the_commit() {
    let (_, job) = follow(vec![outcome(true), outcome(true), outcome(true), outcome(false)]);
    assert_eq!(job.request(), PushRequest::ReadClock);
}

#[test]
fn a_dirty_tree_is_left_alone() {
    assert_eq!(follow(vec![outcome(false)]).0.len(), 1);
    assert_eq!(
        error_after(vec![outcome(false)]),
        "Working tree is dirty. Please commit or stash changes before pushing."
    );
}

#[test]
fn without_git_the_error_is_that_of_the_pull() {
    let events = || vec![missing("first"), missing("second")];
    assert_eq!(follow(events()).0, vec!["git diff --quiet", "git pull --rebase origin main"]);
    assert_eq!(error_after(events()), "second");
}

#[test]
fn every_other_end() {
    let fine = || outcome(true);
    let failed = || outcome(false);
    let gone = || missing("gone");
    let clock = || PushEvent::Clock(1);
    let errors = vec![
        (vec![fine(), failed()], "Git pull failed"),
        (vec![fine(), gone()], "gone"),
        (vec![fine(), fine(), gone()], "gone"),
        (vec![fine(), fine(), fine(), gone()], "gone"),
        (vec![fine(), fine(), fine(), failed(), clock(), failed()], "Git commit failed"),
        (vec![fine(), fine(), fine(), failed(), clock(), gone()], "gone"),
        (vec![fine(), fine(), fine(), failed(), clock(), fine(), failed()], "Git push failed"),
        (vec![fine(), fine(), fine(), failed(), clock(), fine(), gone()], "gone"),
    ];
    for (events, error) in errors {
        assert_eq!(error_after(events), error);
    }
    assert_eq!(
        message_after(vec![fine(), fine(), fine(), fine()]),
        "ℹ No changes to commit, skipping Git commit/push."
    );
}
