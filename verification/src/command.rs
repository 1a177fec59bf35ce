//! Command lines that the tool hands to the system.

use vstd::prelude::*;

verus! {

/// A program and the arguments that it is started with.
#[derive(PartialEq, Eq, Debug)]
pub struct CommandLine {
    pub program: String,
    pub args: Vec<String>,
}

/// What a command line says.
#[verifier::ext_equal]
pub struct CommandText {
    pub program: Seq<char>,
    pub args: Seq<Seq<char>>,
}

/// The texts of a list of strings.
pub open spec fn texts(strings: Seq<String>) -> Seq<Seq<char>> {
    strings.map_values(|s: String| s@)
}

impl View for CommandLine {
    type V = CommandText;

    open spec fn view(&self) -> CommandText {
        CommandText { program: self.program@, args: texts(self.args@) }
    }
}

impl CommandLine {
    /// A command line without arguments.
    pub fn new(program: &str) -> (line: CommandLine)
        ensures
            line@ == (CommandText { program: program@, args: seq![] }),
    {
        let line = CommandLine { program: program.to_owned(), args: Vec::new() };
        assert(texts(line.args@) =~= seq![]);
        line
    }

    /// The command line with one more argument at its end.
    pub fn arg(self, text: &str) -> (line: CommandLine)
        ensures
            line@ == (CommandText { program: self@.program, args: self@.args.push(text@) }),
    {
        let mut args = self.args;
        let ghost before = args@;
        args.push(text.to_owned());
        assert(texts(args@) =~= texts(before).push(text@));
        CommandLine { program: self.program, args }
    }
}

/// The contracts see everything that these values hold, as it is: nothing is left
/// out, and nothing is changed but that bytes and texts are taken as sequences.
pub proof fn law_views_show_everything(
    command_line: CommandLine,
)
    ensures
        command_line@ == (CommandText {
            program: command_line.program@,
            args: texts(command_line.args@),
        }),
{
}

/// A list of strings is taken one by one, as their texts.
pub proof fn law_texts_keep_the_list(strings: Seq<String>, i: int)
    ensures
        texts(strings).len() == strings.len(),
        0 <= i < strings.len() ==> texts(strings)[i] == strings[i]@,
{
}

} // verus!
