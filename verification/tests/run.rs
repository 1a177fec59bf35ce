use validation_archiver::run::{run_project, RunConfig, RunEvent, RunJob, RunRequest};

type Event = RunEvent<Vec<u8>, String>;

fn config(strict: bool, watch: Option<&str>) -> RunConfig {
    RunConfig {
        command: "python3".to_string(),
        file: "scripts/a.py".to_string(),
        script_args: vec!["-v".to_string(), "x y".to_string()],
        strict,
        watch: watch.map(|w| w.as_bytes().to_vec()),
    }
}

fn checks() -> Vec<Event> {
    vec![
        RunEvent::Exists(true),
        RunEvent::Kind(Some(true)),
        RunEvent::Opened(true),
        RunEvent::Length(Some(12)),
        RunEvent::LockCreated,
        RunEvent::Locked(true),
        RunEvent::Validated(true),
        RunEvent::Located { temp_dir: b"/tmp".to_vec(), nanos: 1700000000123456789 },
        RunEvent::Copied(true),
        RunEvent::Copied(true),
    ]
}

fn follow(config: RunConfig, events: Vec<Event>) -> RunJob {
    let mut job = run_project(config);
    for event in events {
        job = job.advance(event);
    }
    job
}

fn ended(strict: bool, success: bool, code: Option<i32>, stderr: &str) -> RunJob {
    let mut events = checks();
    events.push(RunEvent::Exited { success, code, stderr: stderr.to_string() });
    events.push(RunEvent::Cleaned { interrupted: false });
    follow(config(strict, None), events)
}

fn interrupted(strict: bool, success: bool, stderr: &str, answer: &str) -> RunJob {
    let mut events = checks();
    events.push(RunEvent::Exited { success, code: None, stderr: stderr.to_string() });
    events.push(RunEvent::Cleaned { interrupted: true });
    let job = follow(config(strict, None), events);
    assert_eq!(
        job.request(),
        RunRequest::Ask {
            prompt: "\nExecution interrupted. Archive results? [y/N]: ".to_string()
        }
    );
    job.advance(RunEvent::Answer(answer.to_string()))
}

#[test]
fn the_steps_of_a_run() {
    let file = "scripts/a.py".to_string();
    let script = b"/tmp/va_exec_1700000000123456789_a.py".to_vec();
    let snapshot = b"/tmp/va_snapshot_1700000000123456789_a.py".to_vec();
    let expected = vec![
        RunRequest::CheckExists { path: file.clone() },
        RunRequest::CheckKind { path: file.clone() },
        RunRequest::CheckOpen { path: file.clone() },
        RunRequest::CheckLength { path: file.clone() },
        RunRequest::CreateLock { path: "scripts/a.py.lock".to_string() },
        RunRequest::TakeLock,
        RunRequest::Validate { path: file.clone() },
        RunRequest::Locate,
        RunRequest::Copy { from: file.clone(), to: script.clone() },
        RunRequest::Copy { from: file.clone(), to: snapshot.clone() },
    ];
    let mut job = run_project(config(false, None));
    for (request, event) in expected.into_iter().zip(checks()) {
        assert_eq!(job.request(), request);
        job = job.advance(event);
    }
    assert_eq!(
        job.request(),
        RunRequest::Execute {
            message: "Running program: python3".to_string(),
            program: "python3".to_string(),
            script: script.clone(),
            args: vec!["-v".to_string(), "x y".to_string()],
        }
    );
    job = job.advance(RunEvent::Exited { success: true, code: Some(0), stderr: "".to_string() });
    assert_eq!(
        job.request(),
        RunRequest::CleanUp { script, snapshot, lock: "scripts/a.py.lock".to_string() }
    );
    job = job.advance(RunEvent::Cleaned { interrupted: false });
    assert_eq!(
        job.request(),
        RunRequest::Archive { message: "✔ SUCCESS (exit code Some(0))".to_string() }
    );
}

#[test]
fn refusals() {
    let lock = Some("scripts/a.py.lock".to_string());
    let cases: Vec<(usize, Event, &str, Option<String>)> = vec![
        (0, RunEvent::Exists(false), "Error: File 'scripts/a.py' does not exist.", None),
        (1, RunEvent::Kind(Some(false)), "Error: Path 'scripts/a.py' is not a file.", None),
        (1, RunEvent::Kind(None), "Error: Path 'scripts/a.py' is not a file.", None),
        (2, RunEvent::Opened(false), "Error: File 'scripts/a.py' is not readable.", None),
        (
            3,
            RunEvent::Length(Some(0)),
            "Error: File 'scripts/a.py' is empty. Skipping execution.",
            None,
        ),
        (
            3,
            RunEvent::Length(None),
            "Error: File 'scripts/a.py' is empty. Skipping execution.",
            None,
        ),
        (
            5,
            RunEvent::Locked(false),
            "Error: Another instance is already testing file 'scripts/a.py'.",
            None,
        ),
        (
            6,
            RunEvent::Validated(false),
            "Error: Script 'scripts/a.py' failed syntax validation.",
            lock.clone(),
        ),
        (8, RunEvent::Copied(false), "Error creating temporary execution copies.", lock.clone()),
        (9, RunEvent::Copied(false), "Error creating temporary execution copies.", lock),
    ];
    for (n, event, message, unlock) in cases {
        let mut events: Vec<Event> = checks().into_iter().take(n).collect();
        events.push(event);
        assert_eq!(
            follow(config(false, None), events).request(),
            RunRequest::Refuse { message: message.to_string(), unlock, status: 1 }
        );
    }
}

#[test]
fn failure_with_something_to_say() {
    assert_eq!(
        ended(false, false, Some(2), "boom").request(),
        RunRequest::Fail {
            message: "✖ FAILURE (exit code: Some(2))".to_string(),
            detail: Some("Error output:\nboom".to_string()),
            status: 1,
        }
    );
}

#[test]
fn a_bad_exit_with_nothing_to_say_passes_unless_strict() {
    match ended(false, false, Some(1), "").request() {
        RunRequest::Archive { message } => {
            assert_eq!(message, "✔ SUCCESS (exit code Some(1))");
        }
        other => panic!("{:?}", other),
    }
    assert_eq!(
        ended(true, false, None, "").request(),
        RunRequest::Fail {
            message: "✖ FAILURE (exit code: None)".to_string(),
            detail: None,
            status: 1,
        }
    );
}

#[test]
fn a_good_exit_passes_whatever_was_said() {
    for strict in [false, true] {
        assert!(matches!(
            ended(strict, true, Some(0), "warning").request(),
            RunRequest::Archive { .. }
        ));
    }
}

#[test]
fn an_interrupted_run_is_archived_on_demand() {
    assert!(matches!(
        interrupted(true, false, "killed", " Y\n").request(),
        RunRequest::Archive { .. }
    ));
    assert!(matches!(
        interrupted(true, false, "killed", "n\n").request(),
        RunRequest::Fail { .. }
    ));
    assert!(matches!(
        interrupted(false, true, "", "n\n").request(),
        RunRequest::Archive { .. }
    ));
}

#[test]
fn copies_are_kept_apart() {
    let events: Vec<Event> = checks().into_iter().take(8).collect();
    let job = follow(config(false, None), events);
    let first = job.request();
    let second = job.advance(RunEvent::Copied(true)).request();
    match (first, second) {
        (RunRequest::Copy { to: script, .. }, RunRequest::Copy { to: snapshot, .. }) => {
            assert_ne!(script, snapshot);
        }
        other => panic!("{:?}", other),
    }
}
