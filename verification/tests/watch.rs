use validation_archiver::watch::{get_monitored_files, ignore_file_name, keep_entry, WalkEntry};

fn walked(path: &str, is_file: Option<bool>) -> Option<WalkEntry> {
    Some(WalkEntry { path: path.as_bytes().to_vec(), is_file })
}

#[test]
fn names_passed_over() {
    for name in ["__pycache__", "target", "README.md", ".md"] {
        assert!(!keep_entry(name.as_bytes()), "{}", name);
    }
    for name in ["src", "targets", "md", "a.mdx", "__pycache", "a.MD", ""] {
        assert!(keep_entry(name.as_bytes()), "{}", name);
    }
    assert!(!keep_entry(&[0xff, b'.', b'm', b'd']));
    assert!(keep_entry(&[b't', 0xff]));
}

#[test]
fn files_in_order() {
    let entries = vec![
        walked("p", Some(false)),
        walked("p/b.py", Some(true)),
        None,
        walked("p/-", None),
        walked("p/a.py", Some(true)),
    ];
    assert_eq!(get_monitored_files(entries), vec![b"p/b.py".to_vec(), b"p/a.py".to_vec()]);
    assert_eq!(get_monitored_files(Vec::new()), Vec::<Vec<u8>>::new());
}

#[test]
fn the_ignore_file() {
    assert_eq!(ignore_file_name(), ".vaignore");
}
