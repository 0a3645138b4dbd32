use minishell::ast::AstNode;
use minishell::error::ShellError;
use minishell::lexer::Lexer;
use minishell::parser::Parser;
use minishell::tokens::Token;

fn parse_line(line: &str) -> Result<AstNode, ShellError> {
    let mut lexer = Lexer::new(line.to_string());
    let tokens = lexer.tokenize().expect("tokenizing should succeed");
    let mut parser = Parser::new(tokens);
    parser.parse()
}

fn command(name: &str, flags: &[&str], args: &[&str]) -> AstNode {
    AstNode::Command {
        name: name.to_string(),
        flags: flags.iter().map(|s| s.to_string()).collect(),
        args: args.iter().map(|s| s.to_string()).collect(),
    }
}

#[test]
fn simple_command_keeps_flags_and_args_in_order() {
    assert_eq!(
        parse_line("ls -l -a file1 file2").unwrap(),
        command("ls", &["-l", "-a"], &["file1", "file2"])
    );
}

#[test]
fn pipelines_lean_left() {
    assert_eq!(
        parse_line("a | b | c").unwrap(),
        AstNode::Pipeline {
            left: Box::new(AstNode::Pipeline {
                left: Box::new(command("a", &[], &[])),
                right: Box::new(command("b", &[], &[])),
            }),
            right: Box::new(command("c", &[], &[])),
        }
    );
}

#[test]
fn sequences_lean_left() {
    assert_eq!(
        parse_line("a ; b ; c").unwrap(),
        AstNode::Sequence {
            left: Box::new(AstNode::Sequence {
                left: Box::new(command("a", &[], &[])),
                right: Box::new(command("b", &[], &[])),
            }),
            right: Box::new(command("c", &[], &[])),
        }
    );
}

#[test]
fn later_redirection_wraps_the_earlier_one() {
    assert_eq!(
        parse_line("sort < in > out").unwrap(),
        AstNode::Redirect {
            command: Box::new(AstNode::Redirect {
                command: Box::new(command("sort", &[], &[])),
                operator: Token::RedirectIn,
                file: "in".to_string(),
            }),
            operator: Token::RedirectOut,
            file: "out".to_string(),
        }
    );
}

#[test]
fn append_redirection_parses() {
    assert_eq!(
        parse_line("log >> file").unwrap(),
        AstNode::Redirect {
            command: Box::new(command("log", &[], &[])),
            operator: Token::RedirectAppend,
            file: "file".to_string(),
        }
    );
}

#[test]
fn redirection_binds_tighter_than_pipe_and_semicolon() {
    assert_eq!(
        parse_line("a > f | b ; c").unwrap(),
        AstNode::Sequence {
            left: Box::new(AstNode::Pipeline {
                left: Box::new(AstNode::Redirect {
                    command: Box::new(command("a", &[], &[])),
                    operator: Token::RedirectOut,
                    file: "f".to_string(),
                }),
                right: Box::new(command("b", &[], &[])),
            }),
            right: Box::new(command("c", &[], &[])),
        }
    );
}

#[test]
fn a_line_must_begin_with_a_command() {
    assert_eq!(
        parse_line("| x").unwrap_err(),
        ShellError::Parser("Expected command name".to_string())
    );
    assert_eq!(
        parse_line("").unwrap_err(),
        ShellError::Parser("Expected command name".to_string())
    );
}

#[test]
fn each_pipe_and_semicolon_needs_a_following_command() {
    assert_eq!(
        parse_line("a |").unwrap_err(),
        ShellError::Parser("Expected command name".to_string())
    );
    assert_eq!(
        parse_line("a ; ;").unwrap_err(),
        ShellError::Parser("Expected command name".to_string())
    );
}

#[test]
fn a_redirection_needs_its_filename() {
    assert_eq!(
        parse_line("a >").unwrap_err(),
        ShellError::Parser("Expected filename after redirection operator".to_string())
    );
    assert_eq!(
        parse_line("a > | b").unwrap_err(),
        ShellError::Parser("Expected filename after redirection operator".to_string())
    );
}

#[test]
fn trailing_words_after_a_redirection_are_rejected() {
    // The grammar reads a simple command's words before its
    // redirections; a word standing after a redirection's filename
    // belongs to no production, and leftover tokens are a violation,
    // never silently dropped.
    assert_eq!(
        parse_line("echo a > f b").unwrap_err(),
        ShellError::Parser("Unexpected token after command".to_string())
    );
    assert_eq!(
        parse_line("echo a > f x | wc").unwrap_err(),
        ShellError::Parser("Unexpected token after command".to_string())
    );
}

#[test]
fn an_empty_command_name_is_rejected() {
    // An empty quoted word at a statement start lexes to a command
    // token with empty text; a command's name is never empty, so the
    // parser rejects it.
    assert_eq!(
        parse_line("\"\"").unwrap_err(),
        ShellError::Parser("Expected command name".to_string())
    );
    assert_eq!(
        parse_line("'' x").unwrap_err(),
        ShellError::Parser("Expected command name".to_string())
    );
    assert_eq!(
        parse_line("echo ok ; \"\"").unwrap_err(),
        ShellError::Parser("Expected command name".to_string())
    );
}

#[test]
fn an_empty_argument_is_still_allowed() {
    assert_eq!(
        parse_line("echo \"\"").unwrap(),
        command("echo", &[], &[""])
    );
}
