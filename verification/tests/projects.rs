use validation_archiver::projects::{
    list_projects, not_found_text, remove_project, ProjectEntry, RemovalEvent, RemovalRequest,
};

fn entry(name: Option<&str>, is_dir: bool) -> ProjectEntry {
    ProjectEntry { name: name.map(|n| n.to_string()), is_dir }
}

#[test]
fn no_archive_yet() {
    assert_eq!(list_projects(false, &Vec::new()), vec!["No projects tracked yet."]);
}

#[test]
fn the_list() {
    let entries = vec![
        entry(Some("proj"), true),
        entry(Some("stray.txt"), false),
        entry(Some("single_file"), true),
        entry(None, true),
        entry(None, false),
    ];
    assert_eq!(
        list_projects(true, &entries),
        vec![
            "Tracked projects and files:",
            " - [Project] proj",
            " - [Single File Archive]",
            " - [Project] unknown",
        ]
    );
    assert_eq!(list_projects(true, &Vec::new()), vec!["Tracked projects and files:"]);
}

fn asked() -> validation_archiver::projects::RemovalJob {
    let job = remove_project("/home/u", "p");
    assert_eq!(
        job.request(),
        RemovalRequest::Probe { dir: b"/home/u/.validation_archiver/p".to_vec() }
    );
    let job = job.advance(RemovalEvent::Found(true));
    assert_eq!(
        job.request(),
        RemovalRequest::Ask {
            prompt: "Are you sure you want to remove project 'p'? [y/N]".to_string()
        }
    );
    job
}

#[test]
fn removing() {
    let job = asked().advance(RemovalEvent::Answer("Y\n".to_string()));
    assert_eq!(
        job.request(),
        RemovalRequest::Remove { dir: b"/home/u/.validation_archiver/p".to_vec() }
    );
    assert_eq!(
        job.advance(RemovalEvent::Removed).request(),
        RemovalRequest::Finish { message: "Project 'p' removed.".to_string() }
    );
    for no in ["\n", "n\n", "yes\n", ""] {
        assert_eq!(
            asked().advance(RemovalEvent::Answer(no.to_string())).request(),
            RemovalRequest::Finish { message: "Removal cancelled.".to_string() }
        );
    }
}

#[test]
fn removing_what_is_not_there() {
    assert_eq!(not_found_text("p"), "Error: Project 'p' not found.");
    assert_eq!(
        remove_project("/home/u", "p").advance(RemovalEvent::Found(false)).request(),
        RemovalRequest::Missing { message: "Error: Project 'p' not found.".to_string() }
    );
}

#[test]
fn nothing_outside_the_archive_is_removed() {
    for name in ["", ".", "..", "../other", "/etc"] {
        assert_eq!(
            remove_project("/home/u", name).request(),
            RemovalRequest::Missing { message: not_found_text(name) }
        );
    }
}
