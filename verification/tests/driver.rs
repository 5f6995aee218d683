use uiua::driver::{echo, steps, Command, FormatConfigSource, Invocation, RunMode, Step};
use uiua::files::NoWorkingFile;

fn invocation(command: Command) -> Invocation {
    Invocation {
        command,
        path_given: false,
        no_format: false,
        no_update: false,
        to_stdout: false,
        mode: None,
    }
}

#[test]
fn run_formats_then_executes_then_prints() {
    assert_eq!(
        steps(&invocation(Command::Run), None),
        vec![
            Step::CheckUpdate,
            Step::LoadConfig,
            Step::FormatFile { print: false },
            Step::Execute(RunMode::Normal),
            Step::PrintStack,
        ]
    );
}

#[test]
fn run_obeys_its_switches() {
    let quiet = Invocation {
        no_format: true,
        no_update: true,
        mode: Some(RunMode::All),
        path_given: true,
        ..invocation(Command::Run)
    };
    assert_eq!(
        steps(&quiet, Some(NoWorkingFile::NoFile)),
        vec![Step::Execute(RunMode::All), Step::PrintStack]
    );
}

#[test]
fn run_without_a_file_only_says_so() {
    assert_eq!(
        steps(&invocation(Command::Run), Some(NoWorkingFile::MultipleFiles)),
        vec![Step::CheckUpdate, Step::SayNoWorkingFile(NoWorkingFile::MultipleFiles)]
    );
    assert_eq!(
        steps(&invocation(Command::Test), Some(NoWorkingFile::NoFile)),
        vec![Step::SayNoWorkingFile(NoWorkingFile::NoFile)]
    );
}

#[test]
fn test_formats_runs_in_test_mode_and_reports() {
    assert_eq!(
        steps(&invocation(Command::Test), None),
        vec![
            Step::LoadConfig,
            Step::FormatFile { print: false },
            Step::Execute(RunMode::Test),
            Step::SayNoFailures,
        ]
    );
}

#[test]
fn init_refuses_when_a_working_file_exists() {
    assert_eq!(
        steps(&invocation(Command::Init), None),
        vec![Step::CheckUpdate, Step::SayFileExists]
    );
    assert_eq!(
        steps(&invocation(Command::Init), Some(NoWorkingFile::NoFile)),
        vec![Step::CheckUpdate, Step::WriteGreeting]
    );
    assert_eq!(
        steps(&invocation(Command::Init), Some(NoWorkingFile::MultipleFiles)),
        vec![Step::CheckUpdate, Step::WriteGreeting]
    );
}

#[test]
fn fmt_formats_one_file_or_all() {
    let one = Invocation { path_given: true, to_stdout: true, ..invocation(Command::Fmt) };
    assert_eq!(steps(&one, None), vec![Step::LoadConfig, Step::FormatFile { print: true }]);
    assert_eq!(
        steps(&invocation(Command::Fmt), Some(NoWorkingFile::NoFile)),
        vec![Step::LoadConfig, Step::FormatAll { print: false }]
    );
}

#[test]
fn eval_repl_and_watch() {
    assert_eq!(steps(&invocation(Command::Eval), None), vec![Step::Evaluate, Step::PrintStack]);
    assert_eq!(steps(&invocation(Command::Repl), None), vec![Step::LoadConfig, Step::Repl]);
    assert_eq!(
        steps(&invocation(Command::Watch), Some(NoWorkingFile::NoFile)),
        vec![Step::CheckUpdate, Step::Watch { with_file: false, format: true }]
    );
    let plain = Invocation { no_format: true, no_update: true, ..invocation(Command::Watch) };
    assert_eq!(steps(&plain, None), vec![Step::Watch { with_file: true, format: false }]);
}

#[test]
fn no_subcommand_means_watch() {
    assert_eq!(
        steps(&invocation(Command::Missing), None),
        vec![Step::CheckUpdate, Step::Watch { with_file: true, format: true }]
    );
    assert_eq!(
        steps(&invocation(Command::Missing), Some(NoWorkingFile::MultipleFiles)),
        vec![Step::CheckUpdate, Step::Watch { with_file: false, format: true }]
    );
    assert_eq!(
        steps(&invocation(Command::Missing), Some(NoWorkingFile::NoFile)),
        vec![Step::CheckUpdate, Step::PrintHelp, Step::SayNoWorkingFile(NoWorkingFile::NoFile)]
    );
    assert_eq!(steps(&invocation(Command::Invalid), None), vec![Step::PrintError]);
}

#[test]
fn modes_choose_the_blocks_to_run() {
    assert!(RunMode::Normal.runs(false));
    assert!(!RunMode::Normal.runs(true));
    assert!(!RunMode::Test.runs(false));
    assert!(RunMode::Test.runs(true));
    assert!(RunMode::All.runs(false));
    assert!(RunMode::All.runs(true));
    assert_eq!(RunMode::from_name("normal"), Some(RunMode::Normal));
    assert_eq!(RunMode::from_name("test"), Some(RunMode::Test));
    assert_eq!(RunMode::from_name("all"), Some(RunMode::All));
    assert_eq!(RunMode::from_name("All"), None);
    assert_eq!(RunMode::from_name(""), None);
}

#[test]
fn the_source_of_the_format_settings() {
    assert_eq!(FormatConfigSource::from_arg("search-file"), FormatConfigSource::SearchFile);
    assert_eq!(FormatConfigSource::from_arg("default"), FormatConfigSource::Default);
    assert_eq!(
        FormatConfigSource::from_arg("conf/fmt.ua"),
        FormatConfigSource::Path("conf/fmt.ua".to_string())
    );
}

#[test]
fn the_loop_echoes_a_line_that_formatting_changed() {
    assert_eq!(echo("1   +   2", "1 + 2"), Some("\u{21aa} 1 + 2".to_string()));
    assert_eq!(echo("1 + 2", "1 + 2"), None);
}

#[test]
fn init_writes_a_greeting_in_quotes() {
    let (name, text) = uiua::driver::greeting_file();
    assert_eq!(name, "main.ua");
    assert_eq!(text, "\"Hello, World!\"");
    assert_eq!(text.len(), 15);
    assert_eq!((name, text), (uiua::driver::MAIN_FILE, uiua::driver::GREETING));
}
