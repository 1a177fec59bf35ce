use validation_archiver::archiving::{
    archive_results, ArchivingEvent, ArchivingJob, ArchivingRequest, Failure,
};
use validation_archiver::run::{run_project, RunConfig, RunEvent};
use validation_archiver::watch::WalkEntry;

fn after_success(watch: Option<&str>) -> ArchivingJob {
    let mut job = run_project(RunConfig {
        command: "python3".to_string(),
        file: "scripts/a.py".to_string(),
        script_args: Vec::new(),
        strict: false,
        watch: watch.map(|w| w.as_bytes().to_vec()),
    });
    let events = vec![
        RunEvent::Exists(true),
        RunEvent::Kind(Some(true)),
        RunEvent::Opened(true),
        RunEvent::Length(Some(12)),
        RunEvent::LockCreated,
        RunEvent::Locked(true),
        RunEvent::Validated(true),
        RunEvent::Located { temp_dir: b"/tmp".to_vec(), nanos: 1 },
        RunEvent::Copied(true),
        RunEvent::Copied(true),
        RunEvent::Exited { success: true, code: Some(0), stderr: "".to_string() },
        RunEvent::Cleaned { interrupted: false },
    ];
    for event in events {
        job = job.advance(event);
    }
    archive_results(job)
}

fn file(path: &str, is_file: Option<bool>) -> Option<WalkEntry> {
    Some(WalkEntry { path: path.as_bytes().to_vec(), is_file })
}

fn fine() -> ArchivingEvent<String, Vec<Option<WalkEntry>>> {
    ArchivingEvent::Archived { failure: None }
}

fn failed(path: &str, error: &str) -> ArchivingEvent<String, Vec<Option<WalkEntry>>> {
    let failure = Failure { shown: format!("{:?}", path), error: error.to_string() };
    ArchivingEvent::Archived { failure: Some(failure) }
}

fn archive(path: &str) -> ArchivingRequest<Vec<u8>, String> {
    ArchivingRequest::ArchiveFile {
        file: path.as_bytes().to_vec(),
        project_root: b"/work/proj".to_vec(),
    }
}

#[test]
fn a_single_file_is_archived() {
    let mut job = after_success(None);
    assert_eq!(
        job.request(),
        ArchivingRequest::ArchiveFile {
            file: b"scripts/a.py".to_vec(),
            project_root: b"single_file".to_vec(),
        }
    );
    job = job.advance(fine());
    assert_eq!(job.request(), ArchivingRequest::Finish { status: 0 });
}

#[test]
fn a_failure_is_reported_and_is_no_failure_of_the_run() {
    let mut job = after_success(None).advance(failed("scripts/a.py", "Insufficient disk space"));
    assert_eq!(
        job.request(),
        ArchivingRequest::Report {
            message: "Error archiving file \"scripts/a.py\": Insufficient disk space".to_string()
        }
    );
    job = job.advance(ArchivingEvent::Reported);
    assert_eq!(job.request(), ArchivingRequest::Finish { status: 0 });
}

#[test]
fn every_watched_file_is_archived_whatever_became_of_the_others() {
    let mut job = after_success(Some("/work/proj"));
    assert_eq!(job.request(), ArchivingRequest::Walk { dir: b"/work/proj".to_vec() });
    job = job.advance(ArchivingEvent::Walked(vec![
        file("/work/proj", Some(false)),
        file("/work/proj/a.py", Some(true)),
        None,
        file("/work/proj/b.py", Some(true)),
        file("/work/proj/pipe", None),
        file("/work/proj/c.py", Some(true)),
    ]));
    assert_eq!(job.request(), archive("/work/proj/a.py"));
    job = job.advance(fine());
    assert_eq!(job.request(), archive("/work/proj/b.py"));
    job = job.advance(failed("/work/proj/b.py", "gone"));
    assert_eq!(
        job.request(),
        ArchivingRequest::Report {
            message: "Error archiving file \"/work/proj/b.py\": gone".to_string()
        }
    );
    job = job.advance(ArchivingEvent::Reported);
    assert_eq!(job.request(), archive("/work/proj/c.py"));
    job = job.advance(fine());
    assert_eq!(job.request(), ArchivingRequest::Finish { status: 0 });
}

#[test]
fn an_empty_watched_directory() {
    let job = after_success(Some("/work/proj")).advance(ArchivingEvent::Walked(Vec::new()));
    assert_eq!(job.request(), ArchivingRequest::Finish { status: 0 });
}
