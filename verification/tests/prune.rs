use validation_archiver::prune::{
    is_file_archive, prune_project, PruneEntry, PruneEvent, PruneJob, PruneRequest,
};

const ROOT: &str = "/h/.validation_archiver";

type Entries = Vec<PruneEntry<Vec<u8>>>;

/// A directory below the root, with its entries; a star marks one that has a
/// directory in it.
type Listing = (&'static str, Vec<&'static str>);

fn entries(list: &[&str]) -> Entries {
    list.iter()
        .map(|n| PruneEntry {
            name: n.trim_end_matches('*').as_bytes().to_vec(),
            holds_dir: n.ends_with('*'),
        })
        .collect()
}

fn below(path: &str) -> Vec<u8> {
    format!("{}/{}", ROOT, path).into_bytes()
}

fn rotated(project: &str, tree: &[Listing]) -> Vec<String> {
    let mut job: PruneJob = prune_project("/h", project, 5);
    let mut found: Vec<String> = Vec::new();
    loop {
        let event = match job.request() {
            PruneRequest::Probe { path } => {
                assert_eq!(path, below(project));
                PruneEvent::Found(true)
            }
            PruneRequest::Visit { path } => match tree.iter().find(|e| below(e.0) == path) {
                Some((_, list)) => PruneEvent::Listed(entries(list)),
                None => PruneEvent::NotADirectory,
            },
            PruneRequest::Rotate { dir, max_backups } => {
                assert_eq!(max_backups, 5);
                found.push(String::from_utf8(dir).unwrap()[ROOT.len() + 1..].to_string());
                PruneEvent::Rotated { failure: None }
            }
            PruneRequest::Finished { message } => {
                assert_eq!(message, format!("Project '{}' pruned to 5 backups.", project));
                return found;
            }
            other => panic!("{:?}", other),
        };
        job = job.advance(event);
    }
}

#[test]
fn archives_are_told_by_their_entries() {
    assert!(is_file_archive(&entries(&["1700000000", "1700000001"])));
    assert!(!is_file_archive(&entries(&["1700000000", "1700000001*"])));
    assert!(!is_file_archive(&entries(&["1700000000", "a.py"])));
    assert!(is_file_archive(&entries(&[])));
}

#[test]
fn the_walk_finds_all_archives_in_order() {
    let tree: Vec<Listing> = vec![
        ("p", vec!["src*", "notes.txt", "a.py*", "empty"]),
        ("p/src", vec!["b.py*", "deep*"]),
        ("p/src/b.py", vec!["1", "2"]),
        ("p/src/deep", vec!["c.sh*"]),
        ("p/src/deep/c.sh", vec!["3"]),
        ("p/a.py", vec!["17", "+18"]),
        ("p/empty", vec![]),
    ];
    assert_eq!(rotated("p", &tree), vec!["p/src/b.py", "p/src/deep/c.sh", "p/a.py", "p/empty"]);
}

#[test]
fn folders_with_numbers_for_names_are_searched() {
    let tree: Vec<Listing> = vec![
        ("p", vec!["2023*", "2024*"]),
        ("p/2023", vec!["a.py*"]),
        ("p/2023/a.py", vec!["1", "2"]),
        ("p/2024", vec!["a.py*"]),
        ("p/2024/a.py", vec!["3"]),
    ];
    assert_eq!(rotated("p", &tree), vec!["p/2023/a.py", "p/2024/a.py"]);
}

#[test]
fn a_project_that_is_an_archive_itself() {
    assert_eq!(rotated("p", &[("p", vec!["1", "2"])]), vec!["p"]);
}

#[test]
fn nothing_to_prune_in_a_file() {
    assert_eq!(rotated("p", &[]), Vec::<String>::new());
}

#[test]
fn a_project_that_is_not_there() {
    let missing = |name: &str| PruneRequest::Missing {
        message: format!("Error: Project '{}' not found.", name),
    };
    let job = prune_project("/h", "p", 5).advance(PruneEvent::Found(false));
    assert_eq!(job.request(), missing("p"));
    for name in ["", ".", "..", "../other", "/etc"] {
        assert_eq!(prune_project("/h", name, 5).request(), missing(name));
    }
}

#[test]
fn an_unreadable_directory_ends_the_walk() {
    let mut job = prune_project("/h", "p", 5).advance(PruneEvent::Found(true));
    job = job.advance(PruneEvent::Listed(entries(&["a", "b"])));
    assert_eq!(job.request(), PruneRequest::Visit { path: below("p/a") });
    job = job.advance(PruneEvent::Unreadable { error: "denied".to_string() });
    assert_eq!(
        job.request(),
        PruneRequest::Failed { message: "Error pruning project: denied".to_string() }
    );
}

#[test]
fn a_failed_rotation_ends_the_walk() {
    let mut job = prune_project("/h", "p", 3).advance(PruneEvent::Found(true));
    job = job.advance(PruneEvent::Listed(entries(&["1"])));
    assert_eq!(job.request(), PruneRequest::Rotate { dir: below("p"), max_backups: 3 });
    job = job.advance(PruneEvent::Rotated { failure: Some("busy".to_string()) });
    assert_eq!(
        job.request(),
        PruneRequest::Failed { message: "Error pruning project: busy".to_string() }
    );
}
