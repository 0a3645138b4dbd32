use minishell::error::ShellError;
use minishell::lexer::Lexer;
use minishell::tokens::{Token, TokenWithPos};

fn lex(line: &str) -> Vec<TokenWithPos> {
    let mut lexer = Lexer::new(line.to_string());
    lexer.tokenize().expect("tokenizing should succeed")
}

fn kinds(line: &str) -> Vec<Token> {
    lex(line).into_iter().map(|t| t.token).collect()
}

#[test]
fn words_are_classified_by_position() {
    assert_eq!(
        kinds("echo hello -n"),
        vec![
            Token::Command("echo".to_string()),
            Token::Argument("hello".to_string()),
            Token::Flag("-n".to_string()),
        ]
    );
}

#[test]
fn operators_map_directly_and_reset_command_state() {
    assert_eq!(
        kinds("a | b ; c"),
        vec![
            Token::Command("a".to_string()),
            Token::Pipe,
            Token::Command("b".to_string()),
            Token::Semicolon,
            Token::Command("c".to_string()),
        ]
    );
}

#[test]
fn greater_than_is_greedy() {
    assert_eq!(
        kinds("a > f >> g < h"),
        vec![
            Token::Command("a".to_string()),
            Token::RedirectOut,
            Token::Argument("f".to_string()),
            Token::RedirectAppend,
            Token::Argument("g".to_string()),
            Token::RedirectIn,
            Token::Argument("h".to_string()),
        ]
    );
}

#[test]
fn word_after_redirection_is_argument_even_with_dash() {
    assert_eq!(
        kinds("cmd > -weird"),
        vec![
            Token::Command("cmd".to_string()),
            Token::RedirectOut,
            Token::Argument("-weird".to_string()),
        ]
    );
}

#[test]
fn quoted_strings_are_one_word_without_the_quotes() {
    assert_eq!(
        kinds("echo \"a b\" 'c d'"),
        vec![
            Token::Command("echo".to_string()),
            Token::Argument("a b".to_string()),
            Token::Argument("c d".to_string()),
        ]
    );
}

#[test]
fn escapes_are_kept_verbatim_for_the_built_in() {
    assert_eq!(
        kinds("echo \"a\\nb\""),
        vec![
            Token::Command("echo".to_string()),
            Token::Argument("a\\nb".to_string()),
        ]
    );
    assert_eq!(
        kinds("echo \\q"),
        vec![
            Token::Command("echo".to_string()),
            Token::Argument("\\q".to_string()),
        ]
    );
}

#[test]
fn escaped_space_does_not_split_a_word() {
    assert_eq!(
        kinds("echo foo\\ bar"),
        vec![
            Token::Command("echo".to_string()),
            Token::Argument("foo\\ bar".to_string()),
        ]
    );
}

#[test]
fn escaped_quote_does_not_close_the_string() {
    assert_eq!(
        kinds("echo \"a\\\"b\""),
        vec![
            Token::Command("echo".to_string()),
            Token::Argument("a\\\"b".to_string()),
        ]
    );
}

#[test]
fn token_spans_cover_the_source() {
    let toks = lex("ab | c");
    assert_eq!((toks[0].start, toks[0].end), (0, 2));
    assert_eq!((toks[1].start, toks[1].end), (3, 4));
    assert_eq!((toks[2].start, toks[2].end), (5, 6));
}

#[test]
fn unclosed_quote_reports_the_opening_quote_position() {
    let mut lexer = Lexer::new("echo \"abc".to_string());
    let err = lexer.tokenize().expect_err("the quote is never closed");
    assert_eq!(err, ShellError::Lexer("Unclosed quote".to_string(), 5));
}

#[test]
fn unclosed_single_quote_reports_its_position_too() {
    let mut lexer = Lexer::new("x 'oops".to_string());
    let err = lexer.tokenize().expect_err("the quote is never closed");
    assert_eq!(err, ShellError::Lexer("Unclosed quote".to_string(), 2));
}

#[test]
fn empty_line_has_no_tokens() {
    assert_eq!(kinds(""), Vec::<Token>::new());
    assert_eq!(kinds("   \t "), Vec::<Token>::new());
}

#[test]
fn token_helpers_tell_words_and_operators_apart() {
    let word = Token::Argument("x".to_string());
    let op = Token::Pipe;
    assert!(word.is_word());
    assert!(!word.is_operator());
    assert!(op.is_operator());
    assert!(!op.is_word());
    assert_eq!(word.as_str(), Some("x"));
    assert_eq!(op.as_str(), None);
    assert!(!Token::EOF.is_word());
    assert!(!Token::EOF.is_operator());
}
