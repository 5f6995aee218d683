//! The decisions of the command-line driver: for a command and what is on
//! disk, the steps to take, in order. The host takes the steps; a step that
//! fails ends the run with its error.

use vstd::prelude::*;
use vstd::string::*;
use crate::files::NoWorkingFile;
use crate::text::{push_str, same_text, string_from_chars};

verus! {

/// Which blocks of a program are run.
#[derive(Clone, Copy, Debug, PartialEq, Eq, Structural)]
pub enum RunMode {
    /// Everything but test blocks.
    Normal,
    /// Test blocks only.
    Test,
    /// Everything.
    All,
}

impl RunMode {
    /// Whether a block is run in this mode; `test` says whether it is a test
    /// block.
    pub fn runs(&self, test: bool) -> (yes: bool)
        ensures
            yes == match self {
                RunMode::Normal => !test,
                RunMode::Test => test,
                RunMode::All => true,
            },
    {
        match self {
            RunMode::Normal => !test,
            RunMode::Test => test,
            RunMode::All => true,
        }
    }

    /// The mode of the given name: `normal`, `test` or `all`.
    pub fn from_name(name: &str) -> (mode: Option<RunMode>)
        ensures
            mode == if name@ == "normal"@ {
                Some(RunMode::Normal)
            } else if name@ == "test"@ {
                Some(RunMode::Test)
            } else if name@ == "all"@ {
                Some(RunMode::All)
            } else {
                None
            },
    {
        if same_text(name, "normal") {
            Some(RunMode::Normal)
        } else if same_text(name, "test") {
            Some(RunMode::Test)
        } else if same_text(name, "all") {
            Some(RunMode::All)
        } else {
            None
        }
    }
}

/// Where the settings of the formatter come from.
#[derive(Debug, PartialEq, Eq)]
pub enum FormatConfigSource {
    /// From the nearest `fmt.ua`, looking upward from the file.
    SearchFile,
    /// The built-in settings.
    Default,
    /// From the file at this path.
    Path(String),
}

impl FormatConfigSource {
    /// The source that an argument names: `search-file`, `default`, or a
    /// path.
    pub fn from_arg(arg: &str) -> (source: FormatConfigSource)
        ensures
            arg@ == "search-file"@ ==> source is SearchFile,
            arg@ != "search-file"@ && arg@ == "default"@ ==> source is Default,
            arg@ != "search-file"@ && arg@ != "default"@ ==> (source matches FormatConfigSource::Path(
                p,
            ) && p@ == arg@),
    {
        if same_text(arg, "search-file") {
            FormatConfigSource::SearchFile
        } else if same_text(arg, "default") {
            FormatConfigSource::Default
        } else {
            FormatConfigSource::Path(String::from_str(arg))
        }
    }
}

/// The subcommands.
#[derive(Clone, Copy, Debug, PartialEq, Eq, Structural)]
pub enum Command {
    Init,
    Run,
    Eval,
    Test,
    Watch,
    Fmt,
    Repl,
    /// No subcommand was given.
    Missing,
    /// The arguments could not be understood.
    Invalid,
}

/// What the user asked for, as far as the order of the steps depends on
/// it.
#[derive(Clone, Copy, Debug, PartialEq, Eq, Structural)]
pub struct Invocation {
    pub command: Command,
    /// Whether a path was given.
    pub path_given: bool,
    /// Whether formatting before a run is switched off.
    pub no_format: bool,
    /// Whether the update check is switched off.
    pub no_update: bool,
    /// Whether formatted text goes to the standard output.
    pub to_stdout: bool,
    /// The mode that was asked for, if one was.
    pub mode: Option<RunMode>,
}

/// The file that `init` makes.
pub const MAIN_FILE: &'static str = "main.ua";

/// The text of the file that `init` makes: a greeting, as a string literal.
pub const GREETING: &'static str = "\"Hello, World!\"";

/// The name and the text of the file that `init` makes: `main.ua`, with a
/// greeting in double quotes.
pub fn greeting_file() -> (file: (&'static str, &'static str))
    ensures
        file.0@ == "main.ua"@,
        file.1@ == "\"Hello, World!\""@,
        file.0@ == MAIN_FILE@,
        file.1@ == GREETING@,
{
    (MAIN_FILE, GREETING)
}

/// A step of the driver.
#[derive(Clone, Copy, Debug, PartialEq, Eq, Structural)]
pub enum Step {
    /// Look for a newer version and say so if there is one.
    CheckUpdate,
    /// Say that a working file exists already.
    SayFileExists,
    /// Write the file that `greeting_file` gives, under its name.
    WriteGreeting,
    /// Say why there is no working file.
    SayNoWorkingFile(NoWorkingFile),
    /// Load the settings of the formatter.
    LoadConfig,
    /// Format the file; print the result if asked to.
    FormatFile { print: bool },
    /// Format every source file of the directory; print each if asked to.
    FormatAll { print: bool },
    /// Run the file in the given mode.
    Execute(RunMode),
    /// Run the code that was given.
    Evaluate,
    /// Print each value of the final stack.
    PrintStack,
    /// Say that no test failed.
    SayNoFailures,
    /// Watch the directory; `with_file` says whether the working file is run
    /// at once, `format` whether files are formatted before they run.
    Watch { with_file: bool, format: bool },
    /// Read, evaluate and print in a loop.
    Repl,
    /// Print the help text.
    PrintHelp,
    /// Print what was wrong with the arguments.
    PrintError,
}

/// The steps for each command. `working` says why there is no working file,
/// or `None` if there is one. A command that needs a file and has neither a
/// path nor a working file only says why there is none.
pub open spec fn steps_spec(invocation: Invocation, working: Option<NoWorkingFile>) -> Seq<Step> {
    let update = if invocation.no_update {
        seq![]
    } else {
        seq![Step::CheckUpdate]
    };
    let lost = !invocation.path_given && working is Some;
    match invocation.command {
        Command::Init => seq![
            Step::CheckUpdate,
            if working is None {
                Step::SayFileExists
            } else {
                Step::WriteGreeting
            },
        ],
        Command::Fmt => seq![
            Step::LoadConfig,
            if invocation.path_given {
                Step::FormatFile { print: invocation.to_stdout }
            } else {
                Step::FormatAll { print: invocation.to_stdout }
            },
        ],
        Command::Run => update + if lost {
            seq![Step::SayNoWorkingFile(working->0)]
        } else {
            (if invocation.no_format {
                seq![]
            } else {
                seq![Step::LoadConfig, Step::FormatFile { print: false }]
            }) + seq![
                Step::Execute(
                    match invocation.mode {
                        Some(mode) => mode,
                        None => RunMode::Normal,
                    },
                ),
                Step::PrintStack,
            ]
        },
        Command::Eval => seq![Step::Evaluate, Step::PrintStack],
        Command::Test => if lost {
            seq![Step::SayNoWorkingFile(working->0)]
        } else {
            seq![
                Step::LoadConfig,
                Step::FormatFile { print: false },
                Step::Execute(RunMode::Test),
                Step::SayNoFailures,
            ]
        },
        Command::Watch => update + seq![
            Step::Watch { with_file: working is None, format: !invocation.no_format },
        ],
        Command::Repl => seq![Step::LoadConfig, Step::Repl],
        Command::Missing => seq![Step::CheckUpdate] + match working {
            None => seq![Step::Watch { with_file: true, format: true }],
            Some(NoWorkingFile::MultipleFiles) => seq![Step::Watch { with_file: false, format: true }],
            Some(NoWorkingFile::NoFile) => seq![
                Step::PrintHelp,
                Step::SayNoWorkingFile(NoWorkingFile::NoFile),
            ],
        },
        Command::Invalid => seq![Step::PrintError],
    }
}

/// The steps to take for what the user asked. `working` says why there is
/// no working file, or `None` if there is one.
pub fn steps(invocation: &Invocation, working: Option<NoWorkingFile>) -> (steps: Vec<Step>)
    ensures
        steps@ == steps_spec(*invocation, working),
{
    let mut steps: Vec<Step> = Vec::new();
    let lost = !invocation.path_given && working.is_some();
    match invocation.command {
        Command::Init => {
            steps.push(Step::CheckUpdate);
            if working.is_none() {
                steps.push(Step::SayFileExists);
            } else {
                steps.push(Step::WriteGreeting);
            }
        },
        Command::Fmt => {
            steps.push(Step::LoadConfig);
            if invocation.path_given {
                steps.push(Step::FormatFile { print: invocation.to_stdout });
            } else {
                steps.push(Step::FormatAll { print: invocation.to_stdout });
            }
        },
        Command::Run => {
            if !invocation.no_update {
                steps.push(Step::CheckUpdate);
            }
            if lost {
                steps.push(Step::SayNoWorkingFile(working.unwrap()));
            } else {
                if !invocation.no_format {
                    steps.push(Step::LoadConfig);
                    steps.push(Step::FormatFile { print: false });
                }
                let mode = match invocation.mode {
                    Some(mode) => mode,
                    None => RunMode::Normal,
                };
                steps.push(Step::Execute(mode));
                steps.push(Step::PrintStack);
            }
        },
        Command::Eval => {
            steps.push(Step::Evaluate);
            steps.push(Step::PrintStack);
        },
        Command::Test => {
            if lost {
                steps.push(Step::SayNoWorkingFile(working.unwrap()));
            } else {
                steps.push(Step::LoadConfig);
                steps.push(Step::FormatFile { print: false });
                steps.push(Step::Execute(RunMode::Test));
                steps.push(Step::SayNoFailures);
            }
        },
        Command::Watch => {
            if !invocation.no_update {
                steps.push(Step::CheckUpdate);
            }
            steps.push(Step::Watch { with_file: working.is_none(), format: !invocation.no_format });
        },
        Command::Repl => {
            steps.push(Step::LoadConfig);
            steps.push(Step::Repl);
        },
        Command::Missing => {
            steps.push(Step::CheckUpdate);
            match working {
                None => steps.push(Step::Watch { with_file: true, format: true }),
                Some(NoWorkingFile::MultipleFiles) => steps.push(
                    Step::Watch { with_file: false, format: true },
                ),
                Some(NoWorkingFile::NoFile) => {
                    steps.push(Step::PrintHelp);
                    steps.push(Step::SayNoWorkingFile(NoWorkingFile::NoFile));
                },
            }
        },
        Command::Invalid => {
            steps.push(Step::PrintError);
        },
    }
    assert(steps@ =~= steps_spec(*invocation, working));
    steps
}

/// What the read-evaluate-print loop echoes before it runs a line: the
/// formatted line behind an arrow, if formatting changed it.
pub fn echo(code: &str, formatted: &str) -> (shown: Option<String>)
    ensures
        match shown {
            Some(text) => code@ != formatted@ && text@ == "\u{21aa} "@ + formatted@,
            None => code@ == formatted@,
        },
{
    if same_text(code, formatted) {
        None
    } else {
        let mut out: Vec<char> = Vec::new();
        push_str(&mut out, "\u{21aa} ");
        push_str(&mut out, formatted);
        Some(string_from_chars(&out))
    }
}

} // verus!
