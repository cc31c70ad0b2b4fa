use shell::shell::candidate_path;
use shell::shell::classify;
use shell::shell::echo_message;
use shell::shell::exit_code;
use shell::shell::is_builtin;
use shell::shell::split_path;
use shell::shell::Action;
use shell::shell::Error as ShellError;
use shell::Error;
use shell::Shell;

fn args(parts: &[&str]) -> Vec<String> {
    parts.iter().map(|p| p.to_string()).collect()
}

#[test]
fn current_dir_round_trips_the_starting_directory() {
    let sh = Shell::from_dir("/home/user");
    assert_eq!(sh.current_dir(), "/home/user");
}

#[test]
fn cd_without_arguments_changes_nothing() {
    let mut sh = Shell::from_dir("/home/user");
    assert_eq!(sh.cd(&args(&[]), None), Ok(None));
    assert_eq!(sh.current_dir(), "/home/user");
}

#[test]
fn cd_into_a_relative_path_appends_segments() {
    let mut sh = Shell::from_dir("/home/user");
    let target = sh.cd(&args(&["proj/src"]), None).expect("cd succeeds");
    assert_eq!(target.as_deref(), Some("/home/user/proj/src"));
    assert_eq!(sh.current_dir(), "/home/user/proj/src");
}

#[test]
fn cd_dot_dot_drops_the_last_segment() {
    let mut sh = Shell::from_dir("/home/user");
    let target = sh.cd(&args(&[".."]), None).expect("cd succeeds");
    assert_eq!(target.as_deref(), Some("/home"));
    assert_eq!(sh.current_dir(), "/home");
}

#[test]
fn cd_dot_and_empty_segments_change_nothing() {
    let mut sh = Shell::from_dir("/home/user");
    let target = sh.cd(&args(&["./x//y/."]), None).expect("cd succeeds");
    assert_eq!(target.as_deref(), Some("/home/user/x/y"));
    assert_eq!(sh.current_dir(), "/home/user/x/y");
}

#[test]
fn cd_absolute_path_replaces_the_directory() {
    let mut sh = Shell::from_dir("/home/user");
    let target = sh.cd(&args(&["/tmp/work"]), None).expect("cd succeeds");
    assert_eq!(target.as_deref(), Some("/tmp/work"));
    assert_eq!(sh.current_dir(), "/tmp/work");
}

#[test]
fn cd_tilde_restarts_at_the_home_directory() {
    let mut sh = Shell::from_dir("/tmp");
    let home = "/home/user".to_string();
    let target = sh.cd(&args(&["~/notes"]), Some(&home)).expect("cd succeeds");
    assert_eq!(target.as_deref(), Some("/home/user/notes"));
    assert_eq!(sh.current_dir(), "/home/user/notes");
}

#[test]
fn cd_tilde_without_home_is_an_error_and_changes_nothing() {
    let mut sh = Shell::from_dir("/tmp");
    assert_eq!(
        sh.cd(&args(&["~"]), None),
        Err(ShellError::ConfigMissingEnv("HOME".to_string()))
    );
    assert_eq!(sh.current_dir(), "/tmp");
}

#[test]
fn cd_dot_dot_at_the_root_stays_put() {
    let mut sh = Shell::from_dir("/");
    let target = sh.cd(&args(&["../.."]), None).expect("cd succeeds");
    assert_eq!(target.as_deref(), Some(""));
    assert_eq!(sh.current_dir(), "");
}

#[test]
fn type_info_reports_builtins() {
    let r = Shell::type_info(&args(&["echo"])).expect("type succeeds");
    assert_eq!(r.as_deref(), Some("echo is a shell builtin"));
}

#[test]
fn type_info_defers_other_names_to_the_path_search() {
    let r = Shell::type_info(&args(&["vim"])).expect("type succeeds");
    assert_eq!(r, None);
}

#[test]
fn type_info_without_a_name_is_an_arity_error() {
    assert_eq!(
        Shell::type_info(&args(&[])),
        Err(ShellError::InvalidArgumentsCount {
            command: "type".to_string(),
            expected: 1,
            actual: 0,
        })
    );
}

#[test]
fn every_builtin_is_recognized() {
    for name in ["echo", "cd", "type", "exit", "pwd"] {
        assert!(is_builtin(name));
    }
    assert!(!is_builtin("ls"));
    assert!(!is_builtin(""));
}

#[test]
fn classify_picks_the_builtin_by_the_first_word() {
    assert_eq!(classify(&args(&[])), Action::Empty);
    assert_eq!(classify(&args(&["exit", "0"])), Action::Exit);
    assert_eq!(classify(&args(&["type", "ls"])), Action::Type);
    assert_eq!(classify(&args(&["echo", "hi"])), Action::Echo);
    assert_eq!(classify(&args(&["cd", "/"])), Action::Cd);
    assert_eq!(classify(&args(&["pwd"])), Action::Pwd);
    assert_eq!(classify(&args(&["ls", "-l"])), Action::Execute);
}

#[test]
fn candidate_path_joins_directory_and_name() {
    assert_eq!(candidate_path("/usr/bin", "ls"), "/usr/bin/ls");
}

#[test]
fn echo_message_joins_arguments_with_single_spaces() {
    assert_eq!(echo_message(&args(&["hello", "big", "world"])), "hello big world");
    assert_eq!(echo_message(&args(&[])), "");
}

#[test]
fn split_path_keeps_empty_segments() {
    assert_eq!(split_path("/a//b"), ["", "a", "", "b"]);
    assert_eq!(split_path(""), [""]);
}

#[test]
fn exit_code_reads_the_first_argument() {
    assert_eq!(exit_code(&args(&["5"])), 5);
    assert_eq!(exit_code(&args(&["-3"])), -3);
    assert_eq!(exit_code(&args(&["+7", "9"])), 7);
    assert_eq!(exit_code(&args(&["007"])), 7);
}

#[test]
fn exit_code_is_zero_when_missing_or_malformed() {
    assert_eq!(exit_code(&args(&[])), 0);
    assert_eq!(exit_code(&args(&["abc"])), 0);
    assert_eq!(exit_code(&args(&["12x"])), 0);
    assert_eq!(exit_code(&args(&["-"])), 0);
    assert_eq!(exit_code(&args(&[""])), 0);
    assert_eq!(exit_code(&args(&["99999999999999999999"])), 0);
}

#[test]
fn exit_code_covers_the_whole_range() {
    assert_eq!(exit_code(&args(&["2147483647"])), i32::MAX);
    assert_eq!(exit_code(&args(&["-2147483648"])), i32::MIN);
    assert_eq!(exit_code(&args(&["2147483648"])), 0);
    assert_eq!(exit_code(&args(&["-2147483649"])), 0);
}

#[test]
fn error_messages_read_as_diagnostics() {
    assert_eq!(
        ShellError::CommandNotFound("frob".to_string()).message(),
        "frob: command not found"
    );
    assert_eq!(ShellError::TypeNotFound("vim".to_string()).message(), "vim: not found");
    assert_eq!(
        ShellError::CdProblem("/nope".to_string()).message(),
        "cd: /nope: No such file or directory"
    );
    assert_eq!(
        ShellError::ConfigMissingEnv("HOME".to_string()).message(),
        "HOME: missing environment variable"
    );
    assert_eq!(
        ShellError::UnterminatedQuote('\'').message(),
        "syntax error: unterminated ' quote"
    );
}

#[test]
fn arity_error_message_renders_the_counts() {
    let e = ShellError::InvalidArgumentsCount {
        command: "type".to_string(),
        expected: 1,
        actual: 0,
    };
    assert_eq!(e.message(), "type: invalid number of arguments: expected 1, got 0");
    let wide = ShellError::InvalidArgumentsCount {
        command: "x".to_string(),
        expected: 210,
        actual: 1024,
    };
    assert_eq!(wide.message(), "x: invalid number of arguments: expected 210, got 1024");
}

#[test]
fn shell_errors_wrap_into_the_crate_error() {
    let e = Error::from(ShellError::CommandNotFound("frob".to_string()));
    assert_eq!(e, Error::ShellError(ShellError::CommandNotFound("frob".to_string())));
}
