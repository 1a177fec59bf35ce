//! Checking a script's syntax before it is run.

use vstd::prelude::*;
use vstd::utf8::*;

use crate::command::{CommandLine, CommandText};
use crate::paths;

verus! {

/// The command that checks the syntax of the script at `path`, by its
/// extension; none for a script of a kind that is not checked.
pub open spec fn check_of(path: Seq<char>) -> Option<CommandText> {
    let ext = paths::extension_of(encode_utf8(path));
    if ext == Some(encode_utf8("py"@)) {
        Some(
            CommandText { program: "python3"@, args: seq!["-m"@, "py_compile"@, path] },
        )
    } else if ext == Some(encode_utf8("sh"@)) || ext == Some(encode_utf8("bash"@)) {
        Some(CommandText { program: "bash"@, args: seq!["-n"@, path] })
    } else if ext == Some(encode_utf8("rs"@)) {
        Some(CommandText { program: "rustc"@, args: seq!["--check"@, path] })
    } else {
        None
    }
}

/// The command that checks the syntax of the script at `path`, if there is one.
pub fn validation_command(path: &str) -> (line: Option<CommandLine>)
    ensures
        line.is_some() == check_of(path@).is_some(),
        line matches Some(l) ==> Some(l@) == check_of(path@),
{
    match paths::extension(path.as_bytes()) {
        None => None,
        Some(ext) => {
            let ext = ext.as_slice();
            if paths::same_bytes(ext, "py".as_bytes()) {
                let line = CommandLine::new("python3").arg("-m").arg("py_compile").arg(path);
                assert(line@.args =~= seq!["-m"@, "py_compile"@, path@]);
                Some(line)
            } else if paths::same_bytes(ext, "sh".as_bytes()) || paths::same_bytes(
                ext,
                "bash".as_bytes(),
            ) {
                let line = CommandLine::new("bash").arg("-n").arg(path);
                assert(line@.args =~= seq!["-n"@, path@]);
                Some(line)
            } else if paths::same_bytes(ext, "rs".as_bytes()) {
                let line = CommandLine::new("rustc").arg("--check").arg(path);
                assert(line@.args =~= seq!["--check"@, path@]);
                Some(line)
            } else {
                None
            }
        },
    }
}

/// Whether the script at `path` may be run, by the outcome of its
/// `validation_command`: `None` where that could not be started, else whether
/// it ended with success. A script of a kind that is not checked may be run.
pub fn validate_script(path: &str, outcome: Option<bool>) -> (valid: bool)
    ensures
        valid == (check_of(path@) is None || outcome == Some(true)),
        ({
            let ext = paths::extension_of(encode_utf8(path@));
            let checked = ext == Some(seq![112u8, 121]) || ext == Some(seq![115u8, 104]) || ext
                == Some(seq![98u8, 97, 115, 104]) || ext == Some(seq![114u8, 115]);
            valid == (!checked || outcome == Some(true))
        }),
{
    proof {
        law_extension_decides(path@);
    }
    match validation_command(path) {
        None => true,
        Some(_) => match outcome {
            Some(success) => success,
            None => false,
        },
    }
}

/// How a script is checked depends on the extension of its path alone: Python by
/// compiling it, shell scripts by a dry run, Rust by its compiler, and nothing
/// else; and a script that is checked may be run only if the check succeeded.
/// Stated of what `validation_command` and `validate_script` give.
pub proof fn law_extension_decides(path: Seq<char>)
    ensures
        ({
            let ext = paths::extension_of(encode_utf8(path));
            &&& ext == Some(seq![112u8, 121]) ==> check_of(path) == Some(
                (CommandText { program: "python3"@, args: seq!["-m"@, "py_compile"@, path] }),
            )
            &&& ext == Some(seq![115u8, 104]) || ext == Some(seq![98u8, 97, 115, 104])
                ==> check_of(path) == Some(
                (CommandText { program: "bash"@, args: seq!["-n"@, path] }),
            )
            &&& ext == Some(seq![114u8, 115]) ==> check_of(path) == Some(
                (CommandText { program: "rustc"@, args: seq!["--check"@, path] }),
            )
            &&& check_of(path) is Some ==> ext == Some(seq![112u8, 121]) || ext == Some(
                seq![115u8, 104],
            ) || ext == Some(seq![98u8, 97, 115, 104]) || ext == Some(seq![114u8, 115])
        }),
{
    reveal_strlit("py");
    reveal_strlit("sh");
    reveal_strlit("bash");
    reveal_strlit("rs");
    is_ascii_chars_encode_utf8("py"@);
    is_ascii_chars_encode_utf8("sh"@);
    is_ascii_chars_encode_utf8("bash"@);
    is_ascii_chars_encode_utf8("rs"@);
    assert(encode_utf8("py"@) =~= seq![112u8, 121]);
    assert(encode_utf8("sh"@) =~= seq![115u8, 104]);
    assert(encode_utf8("bash"@) =~= seq![98u8, 97, 115, 104]);
    assert(encode_utf8("rs"@) =~= seq![114u8, 115]);
    let b = seq![98u8, 97, 115, 104];
    assert(b.len() == 4);
    assert(seq![112u8, 121][0] == 112 && seq![115u8, 104][0] == 115 && seq![114u8, 115][0] == 114);
}

} // verus!
