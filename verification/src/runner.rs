//! What to run for a script.
//!
//! A script of a manifest is one line of text. It is split into words the
//! way a POSIX shell would split it, by the `shlex` crate; the first word
//! names the program and the others are its arguments. Starting the
//! program is the caller's work.

use crate::linker::Platform;
use crate::text::texts;
use vstd::prelude::*;

verus! {

/// The words that `shlex::split` makes of `command`, or nothing where it
/// reports an error.
pub uninterp spec fn shlex_words(command: Seq<char>) -> Option<Seq<Seq<char>>>;

/// The words of a list of strings, if there is a list.
pub open spec fn words_view(words: Option<Vec<String>>) -> Option<Seq<Seq<char>>> {
    match words {
        Some(list) => Some(texts(list@)),
        None => None,
    }
}

/// Splits `command` into words.
///
/// Trusted: calls `shlex::split`, which gives `None` where the text is
/// erroneous. The contract only gives the answer a name.
#[verifier::external_body]
fn split_words(command: &str) -> (words: Option<Vec<String>>)
    ensures
        words_view(words) == shlex_words(command@),
{
    shlex::split(command)
}

/// A program and the arguments to start it with.
pub struct CommandLine {
    pub program: String,
    pub arguments: Vec<String>,
}

impl CommandLine {
    /// The program and its arguments as one list of words.
    pub open spec fn words(&self) -> Seq<Seq<char>> {
        seq![self.program@] + texts(self.arguments@)
    }
}

/// Why a script names nothing to run.
#[derive(Clone, Copy, PartialEq, Eq, Structural, Debug)]
pub enum CommandError {
    /// The text cannot be split into words.
    Unparsable,
    /// The text holds no word.
    Empty,
}

impl CommandError {
    /// A sentence that says what went wrong.
    pub fn message(&self) -> (text: String)
        ensures
            text@ == match self {
                CommandError::Unparsable => "Failed to parse command string"@,
                CommandError::Empty => "Empty command"@,
            },
    {
        match self {
            CommandError::Unparsable => String::from_str("Failed to parse command string"),
            CommandError::Empty => String::from_str("Empty command"),
        }
    }
}

/// `outcome` is the command line that the words `words` make: the first
/// word is the program, the others are its arguments.
pub open spec fn is_command_of(
    outcome: Result<CommandLine, CommandError>,
    words: Option<Seq<Seq<char>>>,
) -> bool {
    match words {
        None => outcome == Err::<CommandLine, CommandError>(CommandError::Unparsable),
        Some(list) => if list.len() == 0 {
            outcome == Err::<CommandLine, CommandError>(CommandError::Empty)
        } else {
            outcome is Ok && outcome->Ok_0.words() == list
        },
    }
}

/// The command line that the words `words` make.
pub fn command_of(words: Option<Vec<String>>) -> (outcome: Result<CommandLine, CommandError>)
    ensures
        is_command_of(outcome, words_view(words)),
{
    match words {
        None => Err(CommandError::Unparsable),
        Some(list) => {
            if list.len() == 0 {
                Err(CommandError::Empty)
            } else {
                let ghost all = texts(list@);
                let mut arguments = list;
                let program = arguments.remove(0);
                assert(seq![program@] + texts(arguments@) =~= all);
                Ok(CommandLine { program, arguments })
            }
        },
    }
}

/// The command line of the script `command`.
pub fn parse_command(command: &str) -> (outcome: Result<CommandLine, CommandError>)
    ensures
        is_command_of(outcome, shlex_words(command@)),
{
    command_of(split_words(command))
}

/// The directory that is searched first for the programs of a script
/// that runs in `cwd`: the binary directory of the module tree there.
pub open spec fn search_path_of(cwd: Seq<char>, platform: Platform) -> Seq<char> {
    match platform {
        Platform::Posix => cwd + "/node_modules/.bin"@,
        Platform::Windows => cwd + "\\node_modules\\.bin"@,
    }
}

/// The directory that is searched first for the programs of a script that runs in `cwd`.
pub fn search_dir(cwd: &str, platform: Platform) -> (dir: String)
    ensures
        dir@ == search_path_of(cwd@, platform),
{
    let mut dir = String::from_str(cwd);
    match platform {
        Platform::Posix => dir.append("/node_modules/.bin"),
        Platform::Windows => dir.append("\\node_modules\\.bin"),
    }
    dir
}

/// What is started for a command line: on POSIX systems the program
/// itself, on Windows the command interpreter, which is told to run the
/// program and then end.
pub open spec fn started_for(words: Seq<Seq<char>>, platform: Platform) -> Seq<Seq<char>> {
    match platform {
        Platform::Posix => words,
        Platform::Windows => seq!["cmd"@, "/C"@] + words,
    }
}

/// What is started for the command line `line`.
pub fn invocation(line: CommandLine, platform: Platform) -> (started: CommandLine)
    ensures
        started.words() == started_for(line.words(), platform),
{
    match platform {
        Platform::Posix => line,
        Platform::Windows => {
            let ghost words = line.words();
            let CommandLine { program, arguments } = line;
            let mut all: Vec<String> = Vec::new();
            all.push(String::from_str("/C"));
            all.push(program);
            let mut rest = arguments;
            all.append(&mut rest);
            let started = CommandLine { program: String::from_str("cmd"), arguments: all };
            started
        },
    }
}

} // verus!
