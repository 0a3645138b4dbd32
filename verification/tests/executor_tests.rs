use minishell::ast::AstNode;
use minishell::error::ShellError;
use minishell::executor::{
    external_command_result, Executor, SpawnOutcome, SpawnReply, StepResult,
};
use minishell::fs::Fs;
use minishell::lexer::Lexer;
use minishell::parser::Parser;
use minishell::streams::{InStream, OutStream};
use minishell::tokens::Token;

fn run_line(line: &str, fs: &mut Fs) -> (Result<(), ShellError>, String, String) {
    let mut lexer = Lexer::new(line.to_string());
    let tokens = lexer.tokenize().expect("tokenizing should succeed");
    let mut parser = Parser::new(tokens);
    let ast = parser.parse().expect("parsing should succeed");
    let executor = Executor::new();
    let mut stdin = InStream::empty();
    let mut stdout = OutStream::new();
    let mut stderr = OutStream::new();
    let result = executor.execute_ast(&ast, &mut stdin, &mut stdout, &mut stderr, fs);
    (
        result,
        stdout.contents().to_string(),
        stderr.contents().to_string(),
    )
}

fn file(fs: &Fs, name: &str) -> Option<String> {
    fs.read(&name.to_string())
}

#[test]
fn echo_writes_to_stdout() {
    let mut fs = Fs::new();
    let (r, out, err) = run_line("echo hello world", &mut fs);
    assert!(r.is_ok());
    assert_eq!(out, "hello world\n");
    assert_eq!(err, "");
}

#[test]
fn unknown_command_is_not_found_and_carries_its_name() {
    let mut fs = Fs::new();
    let (r, out, _) = run_line("nosuchcmd -x arg", &mut fs);
    assert_eq!(r.unwrap_err(), ShellError::CommandNotFound("nosuchcmd".to_string()));
    assert_eq!(out, "");
}

#[test]
fn redirect_out_truncates_and_writes_the_file() {
    let mut fs = Fs::new();
    let (r, out, _) = run_line("echo data > f", &mut fs);
    assert!(r.is_ok());
    assert_eq!(out, "", "redirected output must not reach the caller");
    assert_eq!(file(&fs, "f"), Some("data\n".to_string()));
    let (r2, _, _) = run_line("echo second > f", &mut fs);
    assert!(r2.is_ok());
    assert_eq!(file(&fs, "f"), Some("second\n".to_string()));
}

#[test]
fn redirect_round_trip_reads_back_what_was_written() {
    let mut fs = Fs::new();
    run_line("echo payload > f", &mut fs).0.unwrap();
    let written = file(&fs, "f").unwrap();
    assert_eq!(written, "payload\n");
    let (r, _, _) = run_line("echo done < f", &mut fs);
    assert!(r.is_ok());
    assert_eq!(file(&fs, "f"), Some(written), "reading must not change the file");
}

#[test]
fn redirect_in_from_missing_file_fails_with_the_file_name() {
    let mut fs = Fs::new();
    let (r, _, _) = run_line("echo x < nofile", &mut fs);
    assert_eq!(
        r.unwrap_err(),
        ShellError::Execution("Cannot open file 'nofile': file not found".to_string())
    );
}

#[test]
fn append_twice_keeps_both_outputs_in_order() {
    let mut fs = Fs::new();
    run_line("echo one >> f", &mut fs).0.unwrap();
    run_line("echo two >> f", &mut fs).0.unwrap();
    assert_eq!(file(&fs, "f"), Some("one\ntwo\n".to_string()));
}

#[test]
fn append_after_write_never_truncates() {
    let mut fs = Fs::new();
    run_line("echo base > f", &mut fs).0.unwrap();
    run_line("echo more >> f", &mut fs).0.unwrap();
    assert_eq!(file(&fs, "f"), Some("base\nmore\n".to_string()));
}

#[test]
fn pipeline_captures_left_output_for_the_right_side() {
    let mut fs = Fs::new();
    let (r, out, err) = run_line("echo hidden | echo shown", &mut fs);
    assert!(r.is_ok());
    assert_eq!(out, "shown\n", "the left side's output feeds the right side, not the caller");
    assert_eq!(err, "");
}

#[test]
fn pipeline_left_failure_skips_the_right_side() {
    let mut fs = Fs::new();
    let (r, out, _) = run_line("nosuch | echo shown", &mut fs);
    assert_eq!(r.unwrap_err(), ShellError::CommandNotFound("nosuch".to_string()));
    assert_eq!(out, "", "the right side must not have run");
}

#[test]
fn sequence_runs_both_sides_in_order() {
    let mut fs = Fs::new();
    let (r, out, _) = run_line("echo a ; echo b", &mut fs);
    assert!(r.is_ok());
    assert_eq!(out, "a\nb\n");
}

#[test]
fn sequence_left_failure_stops_the_line() {
    let mut fs = Fs::new();
    let (r, out, _) = run_line("false ; echo hi", &mut fs);
    assert_eq!(r.unwrap_err(), ShellError::CommandNotFound("false".to_string()));
    assert_eq!(out, "", "the right side must not run after a left-side failure");
}

#[test]
fn unsupported_redirection_operator_is_an_execution_error() {
    let ast = AstNode::Redirect {
        command: Box::new(AstNode::Command {
            name: "echo".to_string(),
            flags: Vec::new(),
            args: Vec::new(),
        }),
        operator: Token::Pipe,
        file: "f".to_string(),
    };
    let executor = Executor::new();
    let mut fs = Fs::new();
    let mut stdin = InStream::empty();
    let mut stdout = OutStream::new();
    let mut stderr = OutStream::new();
    let r = executor.execute_ast(&ast, &mut stdin, &mut stdout, &mut stderr, &mut fs);
    assert_eq!(
        r.unwrap_err(),
        ShellError::Execution("Unsupported redirection operator".to_string())
    );
}

#[test]
fn spawn_outcomes_classify_as_the_spec_demands() {
    let name = "prog".to_string();
    assert!(external_command_result(&name, &SpawnOutcome::Exited(0)).is_ok());
    assert_eq!(
        external_command_result(&name, &SpawnOutcome::NotFound).unwrap_err(),
        ShellError::CommandNotFound("prog".to_string())
    );
    assert_eq!(
        external_command_result(&name, &SpawnOutcome::SpawnFailure("denied".to_string()))
            .unwrap_err(),
        ShellError::Execution("Failed to execute 'prog': denied".to_string())
    );
    assert_eq!(
        external_command_result(&name, &SpawnOutcome::Exited(2)).unwrap_err(),
        ShellError::Execution("Command 'prog' failed with exit code: 2".to_string())
    );
    assert_eq!(
        external_command_result(&name, &SpawnOutcome::Exited(127)).unwrap_err(),
        ShellError::Execution("Command 'prog' failed with exit code: 127".to_string())
    );
    assert_eq!(
        external_command_result(&name, &SpawnOutcome::Exited(-1)).unwrap_err(),
        ShellError::Execution("Command 'prog' failed with exit code: -1".to_string())
    );
}

#[test]
fn file_table_reads_back_writes() {
    let mut fs = Fs::new();
    assert!(!fs.contains(&"a".to_string()));
    assert_eq!(fs.read(&"a".to_string()), None);
    fs.write(&"a".to_string(), "one".to_string());
    assert!(fs.contains(&"a".to_string()));
    assert_eq!(fs.read(&"a".to_string()), Some("one".to_string()));
    fs.write(&"a".to_string(), "two".to_string());
    assert_eq!(fs.read(&"a".to_string()), Some("two".to_string()));
    assert_eq!(fs.read(&"b".to_string()), None);
}

fn step_line(line: &str, fs: &Fs, replies: Vec<SpawnReply>) -> StepResult {
    let mut lexer = Lexer::new(line.to_string());
    let tokens = lexer.tokenize().expect("tokenizing should succeed");
    let mut parser = Parser::new(tokens);
    let ast = parser.parse().expect("parsing should succeed");
    let executor = Executor::new();
    executor.execute_with_replies(&ast, &String::new(), fs, &replies)
}

fn reply(outcome: SpawnOutcome, stdout: &str, stderr: &str) -> SpawnReply {
    SpawnReply {
        outcome,
        stdout: stdout.to_string(),
        stderr: stderr.to_string(),
    }
}

#[test]
fn stepped_walk_without_externals_completes_at_once() {
    let fs = Fs::new();
    match step_line("echo hi", &fs, Vec::new()) {
        StepResult::Done {
            result,
            stdout,
            stderr,
            fs: _,
        } => {
            assert!(result.is_ok());
            assert_eq!(stdout, "hi\n");
            assert_eq!(stderr, "");
        }
        StepResult::NeedSpawn(_) => panic!("a built-in needs no spawn"),
    }
}

#[test]
fn stepped_walk_feeds_a_piped_external_its_input() {
    let fs = Fs::new();
    let request = match step_line("echo data | filter", &fs, Vec::new()) {
        StepResult::NeedSpawn(request) => request,
        StepResult::Done { .. } => panic!("the external has no reply yet"),
    };
    assert_eq!(request.name, "filter");
    assert_eq!(request.argv, Vec::<String>::new());
    assert_eq!(request.input, "data\n", "the left side's whole output is the input");
    let replies = vec![reply(SpawnOutcome::Exited(0), "filtered\n", "")];
    match step_line("echo data | filter", &fs, replies) {
        StepResult::Done {
            result, stdout, ..
        } => {
            assert!(result.is_ok());
            assert_eq!(stdout, "filtered\n");
        }
        StepResult::NeedSpawn(_) => panic!("the one external was answered"),
    }
}

#[test]
fn stepped_walk_redirects_external_output_into_the_file() {
    let fs = Fs::new();
    let request = match step_line("prog -v > f", &fs, Vec::new()) {
        StepResult::NeedSpawn(request) => request,
        StepResult::Done { .. } => panic!("the external has no reply yet"),
    };
    assert_eq!(request.name, "prog");
    assert_eq!(request.argv, vec!["-v".to_string()]);
    let replies = vec![reply(SpawnOutcome::Exited(0), "payload", "")];
    match step_line("prog -v > f", &fs, replies) {
        StepResult::Done {
            result,
            stdout,
            fs: table,
            ..
        } => {
            assert!(result.is_ok());
            assert_eq!(stdout, "", "redirected output must not reach the caller");
            assert_eq!(table.read(&"f".to_string()), Some("payload".to_string()));
        }
        StepResult::NeedSpawn(_) => panic!("the one external was answered"),
    }
}

#[test]
fn stepped_walk_stops_a_sequence_on_a_not_found_reply() {
    let fs = Fs::new();
    let replies = vec![reply(SpawnOutcome::NotFound, "", "")];
    match step_line("nosuch ; echo hi", &fs, replies) {
        StepResult::Done {
            result, stdout, ..
        } => {
            assert_eq!(
                result.unwrap_err(),
                ShellError::CommandNotFound("nosuch".to_string())
            );
            assert_eq!(stdout, "", "the right side must not run");
        }
        StepResult::NeedSpawn(_) => panic!("the one external was answered"),
    }
}

#[test]
fn stepped_walk_turns_a_nonzero_exit_into_an_execution_error() {
    let fs = Fs::new();
    let replies = vec![reply(SpawnOutcome::Exited(3), "partial", "oops\n")];
    match step_line("prog", &fs, replies) {
        StepResult::Done {
            result,
            stdout,
            stderr,
            ..
        } => {
            assert_eq!(
                result.unwrap_err(),
                ShellError::Execution("Command 'prog' failed with exit code: 3".to_string())
            );
            assert_eq!(stdout, "partial", "what the process wrote before failing stands");
            assert_eq!(stderr, "oops\n");
        }
        StepResult::NeedSpawn(_) => panic!("the one external was answered"),
    }
}

#[test]
fn stepped_walk_answers_each_external_in_order() {
    let fs = Fs::new();
    let first = match step_line("alpha ; beta", &fs, Vec::new()) {
        StepResult::NeedSpawn(request) => request,
        StepResult::Done { .. } => panic!("the externals have no replies yet"),
    };
    assert_eq!(first.name, "alpha");
    let one = vec![reply(SpawnOutcome::Exited(0), "a\n", "")];
    let second = match step_line("alpha ; beta", &fs, one.clone()) {
        StepResult::NeedSpawn(request) => request,
        StepResult::Done { .. } => panic!("the second external has no reply yet"),
    };
    assert_eq!(second.name, "beta");
    let mut both = one;
    both.push(reply(SpawnOutcome::Exited(0), "b\n", ""));
    match step_line("alpha ; beta", &fs, both) {
        StepResult::Done {
            result, stdout, ..
        } => {
            assert!(result.is_ok());
            assert_eq!(stdout, "a\nb\n", "both outputs, in order");
        }
        StepResult::NeedSpawn(_) => panic!("both externals were answered"),
    }
}

#[test]
fn file_table_lists_each_file_once_with_its_latest_contents() {
    let mut fs = Fs::new();
    fs.write(&"a".to_string(), "one".to_string());
    fs.write(&"b".to_string(), "two".to_string());
    fs.write(&"a".to_string(), "three".to_string());
    let mut entries = fs.entries();
    entries.sort();
    assert_eq!(
        entries,
        vec![
            ("a".to_string(), "three".to_string()),
            ("b".to_string(), "two".to_string()),
        ]
    );
}

#[test]
fn a_tree_names_the_files_it_reads() {
    let mut lexer = Lexer::new("sort < in1 > out ; join < in2 | cat".to_string());
    let tokens = lexer.tokenize().unwrap();
    let mut parser = Parser::new(tokens);
    let ast = parser.parse().unwrap();
    assert_eq!(ast.input_files(), vec!["in1".to_string(), "in2".to_string()]);
}
