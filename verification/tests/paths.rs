use std::path::Path;

use validation_archiver::paths::{extension, file_name, join, same_bytes, strip_prefix};

fn text(bytes: Option<Vec<u8>>) -> Option<String> {
    bytes.map(|b| String::from_utf8(b).unwrap())
}

fn samples() -> Vec<String> {
    let parts = ["", ".", "..", "a", "b.py", ".x", "a."];
    let mut all: Vec<String> = vec![
        "".to_string(),
        "/".to_string(),
        "//".to_string(),
        "/home/u/p/src/main.rs".to_string(),
        "p/./src//x.tar.gz/".to_string(),
        "./p".to_string(),
        "...".to_string(),
    ];
    for a in parts {
        for b in parts {
            all.push(format!("{}/{}", a, b));
            for c in parts {
                all.push(format!("{}/{}/{}", a, b, c));
                all.push(format!("/{}/{}/{}", a, b, c));
            }
        }
    }
    all
}

#[test]
fn file_names() {
    assert_eq!(text(file_name(b"/a/b.py")), Some("b.py".to_string()));
    assert_eq!(text(file_name(b"a/./")), Some("a".to_string()));
    assert_eq!(file_name(b"a/.."), None);
    assert_eq!(file_name(b"."), None);
    for p in samples() {
        let expected = Path::new(&p).file_name().map(|n| n.to_str().unwrap().to_string());
        assert_eq!(text(file_name(p.as_bytes())), expected, "{}", p);
    }
}

#[test]
fn extensions() {
    assert_eq!(text(extension(b"x/y.tar.gz")), Some("gz".to_string()));
    assert_eq!(extension(b".bashrc"), None);
    assert_eq!(text(extension(b"a.")), Some("".to_string()));
    for p in samples() {
        let expected = Path::new(&p).extension().map(|n| n.to_str().unwrap().to_string());
        assert_eq!(text(extension(p.as_bytes())), expected, "{}", p);
    }
}

#[test]
fn joining() {
    assert_eq!(join(b"/r", b"p"), b"/r/p".to_vec());
    assert_eq!(join(b"/r/", b"p"), b"/r/p".to_vec());
    assert_eq!(join(b"/r", b"/abs"), b"/abs".to_vec());
    assert_eq!(join(b"", b"p"), b"p".to_vec());
    assert_eq!(join(b"/r", b""), b"/r/".to_vec());
    let all = samples();
    for a in all.iter().step_by(7) {
        for b in &all {
            let expected = Path::new(a).join(b).to_str().unwrap().as_bytes().to_vec();
            assert_eq!(join(a.as_bytes(), b.as_bytes()), expected, "{} {}", a, b);
        }
    }
}

#[test]
fn taking_a_prefix_off() {
    assert_eq!(text(strip_prefix(b"/w/p/src//x.py", b"/w/p/")), Some("src//x.py".to_string()));
    assert_eq!(strip_prefix(b"/w/pp/x", b"/w/p"), None);
    assert_eq!(strip_prefix(b"./p/x", b"p"), None);
    assert_eq!(text(strip_prefix(b"p", b"p")), Some("".to_string()));
    let all = samples();
    for p in &all {
        for base in &all {
            if base.is_empty() {
                continue;
            }
            let expected =
                Path::new(p).strip_prefix(base).ok().map(|r| r.to_str().unwrap().to_string());
            assert_eq!(
                text(strip_prefix(p.as_bytes(), base.as_bytes())),
                expected,
                "{} {}",
                p,
                base
            );
        }
    }
}

#[test]
fn joined_and_stripped_again() {
    for base in ["/w/p", "p/", ".", "/", "../p", "a//b"] {
        for rel in ["x", "x/y.py", "a/../b", "..", ".hidden/f"] {
            let path = join(base.as_bytes(), rel.as_bytes());
            assert_eq!(text(strip_prefix(&path, base.as_bytes())), Some(rel.to_string()));
        }
    }
}

#[test]
fn bytes_compared() {
    assert!(same_bytes(b"ab", b"ab"));
    assert!(!same_bytes(b"ab", b"abc"));
    assert!(!same_bytes(b"ab", b"ac"));
}
