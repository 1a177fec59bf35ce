use validation_archiver::scripts::{validate_script, validation_command};

fn shown(path: &str) -> Option<(String, Vec<String>)> {
    validation_command(path).map(|line| (line.program, line.args))
}

fn line(program: &str, args: &[&str]) -> Option<(String, Vec<String>)> {
    Some((program.to_string(), args.iter().map(|a| a.to_string()).collect()))
}

#[test]
fn commands_by_extension() {
    assert_eq!(shown("x/a.py"), line("python3", &["-m", "py_compile", "x/a.py"]));
    assert_eq!(shown("a.sh"), line("bash", &["-n", "a.sh"]));
    assert_eq!(shown("a.tar.bash"), line("bash", &["-n", "a.tar.bash"]));
    assert_eq!(shown("./main.rs"), line("rustc", &["--check", "./main.rs"]));
    for path in ["a.PY", "py", ".py", "a", "a.txt", "a.py/..", "a.pyc", ""] {
        assert_eq!(shown(path), None, "{}", path);
    }
}

#[test]
fn verdicts() {
    assert!(validate_script("a.py", Some(true)));
    assert!(!validate_script("a.py", Some(false)));
    assert!(!validate_script("a.sh", None));
    assert!(validate_script("a.txt", None));
    assert!(validate_script("a.txt", Some(false)));
}
