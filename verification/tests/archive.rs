use validation_archiver::archive::{
    archive_file, archive_root, hash_file, project_path, ArchiveEvent, ArchiveJob, ArchiveRequest,
};
use validation_archiver::digest::compute_file_hash;
use validation_archiver::text::is_backup_name;

fn text(s: &str) -> String {
    s.to_string()
}

fn bytes(s: &str) -> Vec<u8> {
    s.as_bytes().to_vec()
}

fn done() -> ArchiveEvent<String> {
    ArchiveEvent::Done { failure: None }
}

fn failed_with(error: &str) -> ArchiveEvent<String> {
    ArchiveEvent::Done { failure: Some(text(error)) }
}

fn single() -> ArchiveJob {
    archive_file("/home/u", b"scripts/a.py", b"single_file")
}

fn follow(job: ArchiveJob, events: Vec<ArchiveEvent<String>>) -> ArchiveJob {
    let mut job = job;
    for event in events {
        job = job.advance(event);
    }
    job
}

fn up_to_size(latest: Option<String>, size: u64) -> Vec<ArchiveEvent<String>> {
    vec![
        ArchiveEvent::Latest(latest),
        ArchiveEvent::Hash(Ok(text("h2"))),
        done(),
        ArchiveEvent::Space(Ok((10, 4096))),
        ArchiveEvent::Size(Ok(size)),
    ]
}

#[test]
fn where_things_lie() {
    assert_eq!(archive_root("/home/u"), bytes("/home/u/.validation_archiver"));
    assert_eq!(project_path("/home/u", "p"), Some(bytes("/home/u/.validation_archiver/p")));
    assert_eq!(project_path("/home/u", "p/src"), Some(bytes("/home/u/.validation_archiver/p/src")));
    assert_eq!(hash_file(b"/x/17"), bytes("/x/17/.hash"));
}

#[test]
fn names_that_lead_out_of_the_archive_are_no_projects() {
    for name in ["", ".", "./", "..", "../other", "p/../..", "/", "/etc", "//p"] {
        assert_eq!(project_path("/home/u", name), None, "{:?}", name);
    }
    for name in ["p", "./p", "p/", "...", "..p", "p/q"] {
        assert!(project_path("/home/u", name).is_some(), "{:?}", name);
    }
}

#[test]
fn plan_of_a_single_file() {
    let job = single();
    assert_eq!(
        job.plan.archive_path,
        bytes("/home/u/.validation_archiver/single_file/scripts/a.py")
    );
    assert_eq!(job.plan.file_name, bytes("a.py"));
    assert_eq!(job.plan.file_path, bytes("scripts/a.py"));
}

#[test]
fn plan_of_a_single_file_with_an_absolute_path() {
    let job = archive_file("/home/u", b"/work/a.py", b"single_file");
    assert_eq!(
        job.plan.archive_path,
        bytes("/home/u/.validation_archiver/single_file/.absolute/work/a.py")
    );
    assert_eq!(job.plan.file_path, bytes("/work/a.py"));
    assert_eq!(job.plan.file_name, bytes("a.py"));
}

#[test]
fn plan_of_a_file_outside_the_watched_directory() {
    let job = archive_file("/home/u", b"/other/b.py", b"/work/proj");
    assert_eq!(
        job.plan.archive_path,
        bytes("/home/u/.validation_archiver/proj/.absolute/other/b.py")
    );
}

fn place_of_single(file: &str) -> String {
    let path = archive_file("/h", file.as_bytes(), b"single_file").plan.archive_path;
    String::from_utf8(path).unwrap()
}

#[test]
fn a_path_is_kept_as_given_within_the_archive() {
    for file in [
        "a.py",
        "./a.py",
        "w/a.py",
        "../a.py",
        "../w/./a.py",
        "w/../a.py",
        "w/../../a.py",
        "../../.validation_archiver/x/a.py",
        "../../../h/.validation_archiver/a.py",
        "../../../../h/.validation_archiver/a.py",
        "...",
    ] {
        assert_eq!(
            place_of_single(file),
            format!("/h/.validation_archiver/single_file/{}", file)
        );
    }
}

#[test]
fn a_path_that_leads_out_of_the_archive_gets_a_place_of_its_own() {
    let single = "/h/.validation_archiver/single_file/";
    for (file, place) in [
        ("../../a.py", ".above/.../.../a.py"),
        (".././../w/a.py", ".above/.../.../w/a.py"),
        ("../../.../a.py", ".above/.../.../..../a.py"),
        ("../../.validation_archiver_2/a.py", ".above/.../.../.validation_archiver_2/a.py"),
        ("/w/a.py", ".absolute/w/a.py"),
        ("//w/./a.py", ".absolute/w/a.py"),
        ("/w/../a.py", ".absolute/w/.../a.py"),
    ] {
        assert_eq!(place_of_single(file), format!("{}{}", single, place));
    }
}

#[test]
fn single_files_are_kept_apart() {
    let files = [
        "a.py",
        "../a.py",
        "../../a.py",
        "../.../a.py",
        "../../.../a.py",
        "/a.py",
        "/../a.py",
        "w/a.py",
        "/w/a.py",
        "../w/a.py",
        "above/a.py",
    ];
    for (i, file) in files.iter().enumerate() {
        for other in &files[i + 1..] {
            assert_ne!(place_of_single(file), place_of_single(other));
        }
    }
}

#[test]
fn plan_of_a_watched_file() {
    for root in ["/work/proj", "/work/proj/", "/work/./proj"] {
        let file = format!("{}/src/b.py", root);
        let job = archive_file("/home/u", file.as_bytes(), root.as_bytes());
        assert_eq!(
            job.plan.archive_path,
            bytes("/home/u/.validation_archiver/proj/src/b.py"),
            "{}",
            root
        );
    }
}

#[test]
fn a_new_backup() {
    let dir = "/home/u/.validation_archiver/single_file/scripts/a.py";
    let mut job = single();
    assert_eq!(job.request(), ArchiveRequest::FindLatest { dir: bytes(dir) });
    job = job.advance(ArchiveEvent::Latest(Some(text("h1"))));
    assert_eq!(job.request(), ArchiveRequest::Hash { file: bytes("scripts/a.py") });
    job = job.advance(ArchiveEvent::Hash(Ok(text("h2"))));
    assert_eq!(
        job.request(),
        ArchiveRequest::CreateDir { dir: bytes("/home/u/.validation_archiver") }
    );
    job = job.advance(done());
    assert_eq!(
        job.request(),
        ArchiveRequest::QuerySpace { path: bytes("/home/u/.validation_archiver") }
    );
    job = job.advance(ArchiveEvent::Space(Ok((2, 512))));
    assert_eq!(job.request(), ArchiveRequest::QuerySize { file: bytes("scripts/a.py") });
    job = job.advance(ArchiveEvent::Size(Ok(1024)));
    assert_eq!(job.request(), ArchiveRequest::Rotate { dir: bytes(dir), max_backups: 100 });
    job = job.advance(done());
    assert_eq!(job.request(), ArchiveRequest::ReadClock);
    job = job.advance(ArchiveEvent::Clock(1700000000));
    let backup = format!("{}/1700000000", dir);
    assert_eq!(job.request(), ArchiveRequest::CreateDir { dir: bytes(&backup) });
    job = job.advance(done());
    let partial = format!("{}/.tmp_a.py", backup);
    let destination = format!("{}/a.py", backup);
    assert_eq!(
        job.request(),
        ArchiveRequest::Copy { from: bytes("scripts/a.py"), to: bytes(&partial) }
    );
    job = job.advance(done());
    assert_eq!(
        job.request(),
        ArchiveRequest::Rename { from: bytes(&partial), to: bytes(&destination) }
    );
    job = job.advance(done());
    assert_eq!(
        job.request(),
        ArchiveRequest::WriteHash { path: bytes(&format!("{}/.hash", backup)), hash: text("h2") }
    );
    job = job.advance(done());
    assert_eq!(job.request(), ArchiveRequest::Archived { destination: bytes(&destination) });
}

#[test]
fn the_first_file_is_archived() {
    let mut job = single();
    let mut made: Vec<Vec<u8>> = Vec::new();
    loop {
        let event = match job.request() {
            ArchiveRequest::FindLatest { .. } => ArchiveEvent::Latest(None),
            ArchiveRequest::Hash { .. } => ArchiveEvent::Hash(Ok(text("h"))),
            ArchiveRequest::QuerySpace { path } => {
                assert!(made.contains(&path));
                ArchiveEvent::Space(Ok((1, 4096)))
            }
            ArchiveRequest::QuerySize { .. } => ArchiveEvent::Size(Ok(12)),
            ArchiveRequest::ReadClock => ArchiveEvent::Clock(7),
            ArchiveRequest::CreateDir { dir } => {
                made.push(dir);
                done()
            }
            ArchiveRequest::Rotate { .. }
            | ArchiveRequest::Copy { .. }
            | ArchiveRequest::Rename { .. }
            | ArchiveRequest::WriteHash { .. } => done(),
            ArchiveRequest::Archived { destination } => {
                assert_eq!(
                    destination,
                    bytes("/home/u/.validation_archiver/single_file/scripts/a.py/7/a.py")
                );
                return;
            }
            other => panic!("{:?}", other),
        };
        job = job.advance(event);
    }
}

#[test]
fn an_unchanged_file_is_left_alone() {
    let hash = compute_file_hash(b"print('hi')\n");
    let job = follow(
        single(),
        vec![ArchiveEvent::Latest(Some(hash.clone())), ArchiveEvent::Hash(Ok(hash))],
    );
    assert_eq!(job.request(), ArchiveRequest::Unchanged);
}

#[test]
fn an_archived_file_is_recognised() {
    let hash = compute_file_hash(b"content");
    let mut events = vec![
        ArchiveEvent::Latest(None),
        ArchiveEvent::Hash(Ok(hash.clone())),
        done(),
        ArchiveEvent::Space(Ok((1, 100))),
        ArchiveEvent::Size(Ok(7)),
        done(),
        ArchiveEvent::Clock(5),
    ];
    events.push(done());
    events.push(done());
    events.push(done());
    match follow(single(), events).request() {
        ArchiveRequest::WriteHash { hash: written, .. } => {
            let again = follow(
                single(),
                vec![ArchiveEvent::Latest(Some(written)), ArchiveEvent::Hash(Ok(hash))],
            );
            assert_eq!(again.request(), ArchiveRequest::Unchanged);
        }
        other => panic!("{:?}", other),
    }
}

#[test]
fn no_space() {
    let full = follow(single(), up_to_size(None, 40961));
    assert_eq!(
        full.request(),
        ArchiveRequest::NoSpace { error: text("Insufficient disk space") }
    );
    let exact = follow(single(), up_to_size(Some(text("h1")), 40960));
    assert!(matches!(exact.request(), ArchiveRequest::Rotate { .. }));
}

#[test]
fn refusals_of_the_system_end_it() {
    let failed = |events: Vec<ArchiveEvent<String>>| follow(single(), events).request();
    assert_eq!(
        failed(vec![ArchiveEvent::Latest(None), ArchiveEvent::Hash(Err(text("refused")))]),
        ArchiveRequest::Failed { error: text("refused") }
    );
    assert_eq!(
        failed(vec![
            ArchiveEvent::Latest(None),
            ArchiveEvent::Hash(Ok(text("h"))),
            done(),
            ArchiveEvent::Space(Err(text("refused"))),
        ]),
        ArchiveRequest::Failed { error: text("refused") }
    );
    assert_eq!(
        failed(vec![
            ArchiveEvent::Latest(None),
            ArchiveEvent::Hash(Ok(text("h"))),
            done(),
            ArchiveEvent::Space(Ok((1, 1))),
            ArchiveEvent::Size(Err(text("refused"))),
        ]),
        ArchiveRequest::Failed { error: text("refused") }
    );
    assert_eq!(
        failed(vec![
            ArchiveEvent::Latest(None),
            ArchiveEvent::Hash(Ok(text("h"))),
            failed_with("refused"),
        ]),
        ArchiveRequest::Failed { error: text("refused") }
    );
    for good in 0..5usize {
        let mut events = up_to_size(None, 1);
        for step in 0..=good {
            if step == 1 {
                events.push(ArchiveEvent::Clock(9));
            }
            events.push(if step < good { done() } else { failed_with("refused") });
        }
        assert_eq!(failed(events), ArchiveRequest::Failed { error: text("refused") });
    }
}

#[test]
fn backups_are_recognised() {
    let mut events = up_to_size(None, 1);
    events.push(done());
    events.push(ArchiveEvent::Clock(1723456789));
    match follow(single(), events).request() {
        ArchiveRequest::CreateDir { dir } => {
            let name = validation_archiver::paths::file_name(&dir).unwrap();
            assert!(is_backup_name(&name));
        }
        other => panic!("{:?}", other),
    }
}

#[test]
fn watched_files_are_kept_apart() {
    let path = |file: &str| archive_file("/h", file.as_bytes(), b"/w/p").plan.archive_path;
    assert_ne!(path("/w/p/a.py"), path("/w/p/src/a.py"));
    assert_ne!(path("/w/p/a.py"), path("/w/p/b.py"));
}

#[test]
fn archive_paths_start_at_the_project() {
    let path = |file: &str, root: &str| {
        archive_file("/h", file.as_bytes(), root.as_bytes()).plan.archive_path
    };
    assert!(path("a.py", "single_file").starts_with(b"/h/.validation_archiver/single_file/"));
    assert!(path("/w/a.py", "single_file").starts_with(b"/h/.validation_archiver/single_file/"));
    assert!(path("/w/p/a.py", "/w/p").starts_with(b"/h/.validation_archiver/p/"));
}

#[test]
fn backups_are_kept_apart() {
    let dir = |at: u64| {
        let mut events = up_to_size(None, 1);
        events.push(done());
        events.push(ArchiveEvent::Clock(at));
        follow(single(), events).request()
    };
    assert_ne!(dir(1), dir(2));
    assert_ne!(dir(1), dir(10));
    assert_eq!(dir(7), dir(7));
}
