use minishell::commands::{get_command, Command};
use minishell::echo::Echo;
use minishell::error::ShellError;
use minishell::executor::Executor;
use minishell::fs::Fs;
use minishell::lexer::Lexer;
use minishell::parser::Parser;
use minishell::streams::{InStream, OutStream};

fn echo_with(args: &[&str]) -> String {
    let args: Vec<String> = args.iter().map(|s| s.to_string()).collect();
    let mut stdin = InStream::empty();
    let mut stdout = OutStream::new();
    let mut stderr = OutStream::new();
    Echo.execute(&args, &mut stdin, &mut stdout, &mut stderr)
        .expect("echo never fails");
    assert_eq!(stderr.contents(), "");
    stdout.contents().to_string()
}

fn run_echo_line(line: &str) -> String {
    let mut lexer = Lexer::new(line.to_string());
    let tokens = lexer.tokenize().expect("tokenizing should succeed");
    let mut parser = Parser::new(tokens);
    let ast = parser.parse().expect("parsing should succeed");
    let executor = Executor::new();
    let mut fs = Fs::new();
    let mut stdin = InStream::empty();
    let mut stdout = OutStream::new();
    let mut stderr = OutStream::new();
    executor
        .execute_ast(&ast, &mut stdin, &mut stdout, &mut stderr, &mut fs)
        .expect("the line should succeed");
    stdout.contents().to_string()
}

#[test]
fn echo_joins_arguments_with_single_spaces() {
    assert_eq!(echo_with(&["a", "b"]), "a b\n");
    assert_eq!(run_echo_line("echo a b"), "a b\n");
}

#[test]
fn echo_without_arguments_writes_one_newline() {
    assert_eq!(echo_with(&[]), "\n");
    assert_eq!(run_echo_line("echo"), "\n");
}

#[test]
fn echo_translates_newline_escapes() {
    assert_eq!(run_echo_line("echo \"a\\nb\""), "a\nb\n");
}

#[test]
fn echo_translates_the_control_escapes() {
    assert_eq!(echo_with(&["a\\tb"]), "a\tb\n");
    assert_eq!(echo_with(&["a\\rb"]), "a\rb\n");
    assert_eq!(echo_with(&["a\\0b"]), "a\0b\n");
    assert_eq!(echo_with(&["a\\\\b"]), "a\\b\n");
    assert_eq!(echo_with(&["a\\\"b"]), "a\"b\n");
    assert_eq!(echo_with(&["a\\'b"]), "a'b\n");
}

#[test]
fn echo_keeps_unknown_escapes_as_written() {
    assert_eq!(run_echo_line("echo \\q"), "\\q\n");
    assert_eq!(echo_with(&["\\q"]), "\\q\n");
}

#[test]
fn echo_keeps_a_trailing_backslash() {
    assert_eq!(run_echo_line("echo foo\\"), "foo\\\n");
    assert_eq!(echo_with(&["foo\\"]), "foo\\\n");
}

#[test]
fn echo_decodes_escapes_in_isolation_too() {
    assert_eq!(Echo.process_escape_sequences("a\\nb"), "a\nb");
    assert_eq!(Echo.process_escape_sequences("plain"), "plain");
    assert_eq!(Echo.process_escape_sequences("end\\"), "end\\");
}

#[test]
fn the_registry_knows_echo_and_nothing_else() {
    assert!(get_command("echo").is_some());
    assert!(get_command("cd").is_none());
    assert!(get_command("").is_none());
    assert!(get_command("ECHO").is_none());
}

#[test]
fn error_constructors_build_their_variants() {
    assert_eq!(
        ShellError::lexer("m", 3),
        ShellError::Lexer("m".to_string(), 3)
    );
    assert_eq!(ShellError::parser("m"), ShellError::Parser("m".to_string()));
    assert_eq!(
        ShellError::execution("m"),
        ShellError::Execution("m".to_string())
    );
    assert_eq!(
        ShellError::command_not_found("c"),
        ShellError::CommandNotFound("c".to_string())
    );
    assert_eq!(
        ShellError::invalid_arguments("m"),
        ShellError::InvalidArguments("m".to_string())
    );
}
