//! The command tree: the four node shapes the parser produces. The tree
//! is strictly owned — each node owns its children — and is built and
//! evaluated once per line.

use vstd::prelude::*;

use crate::tokens::{Token, TokenView};

verus! {

/// A parsed command tree.
///
/// - `Command` is a simple command: its name, then its flags and its other
///   arguments, each kept in source order in its own list; the name is
///   non-empty for any tree the parser builds.
/// - `Redirect` rebinds one stream of `command` to the named file; the
///   operator is one of the three redirection tokens. Chained
///   redirections nest, the later one wrapping the earlier.
/// - `Pipeline` and `Sequence` are binary; `a | b | c` parses to the
///   left-leaning `(a | b) | c`, and `;` likewise.
#[derive(Debug, PartialEq)]
pub enum AstNode {
    Command { name: String, flags: Vec<String>, args: Vec<String> },
    Redirect { command: Box<AstNode>, operator: Token, file: String },
    Pipeline { left: Box<AstNode>, right: Box<AstNode> },
    Sequence { left: Box<AstNode>, right: Box<AstNode> },
}

/// The mathematical shape of a command tree: all text as character
/// sequences.
pub ghost enum AstView {
    Command { name: Seq<char>, flags: Seq<Seq<char>>, args: Seq<Seq<char>> },
    Redirect { command: Box<AstView>, operator: TokenView, file: Seq<char> },
    Pipeline { left: Box<AstView>, right: Box<AstView> },
    Sequence { left: Box<AstView>, right: Box<AstView> },
}

/// The views of a list of words.
pub open spec fn strings_view(v: Seq<String>) -> Seq<Seq<char>> {
    v.map_values(|s: String| s@)
}

/// The view of a command tree.
pub open spec fn ast_view(a: &AstNode) -> AstView
    decreases a,
{
    match a {
        AstNode::Command { name, flags, args } => AstView::Command {
            name: name@,
            flags: strings_view(flags@),
            args: strings_view(args@),
        },
        AstNode::Redirect { command, operator, file } => AstView::Redirect {
            command: Box::new(ast_view(command)),
            operator: operator@,
            file: file@,
        },
        AstNode::Pipeline { left, right } => AstView::Pipeline {
            left: Box::new(ast_view(left)),
            right: Box::new(ast_view(right)),
        },
        AstNode::Sequence { left, right } => AstView::Sequence {
            left: Box::new(ast_view(left)),
            right: Box::new(ast_view(right)),
        },
    }
}

/// The data-model invariant of a command tree: every command's name is
/// non-empty, and every redirection's operator is one of the three
/// redirection tokens. The parser yields only such trees.
pub open spec fn wf_ast(a: AstView) -> bool
    decreases a,
{
    match a {
        AstView::Command { name, flags, args } => name.len() > 0,
        AstView::Redirect { command, operator, file } => operator.spec_is_redirect_op() && wf_ast(
            *command,
        ),
        AstView::Pipeline { left, right } => wf_ast(*left) && wf_ast(*right),
        AstView::Sequence { left, right } => wf_ast(*left) && wf_ast(*right),
    }
}

impl View for AstNode {
    type V = AstView;

    open spec fn view(&self) -> AstView {
        ast_view(self)
    }
}

/// The files a tree reads through in-redirections, leaves first.
pub open spec fn spec_input_files(a: AstView) -> Seq<Seq<char>>
    decreases a,
{
    match a {
        AstView::Command { name, flags, args } => Seq::empty(),
        AstView::Redirect { command, operator, file } => if operator is RedirectIn {
            spec_input_files(*command).push(file)
        } else {
            spec_input_files(*command)
        },
        AstView::Pipeline { left, right } => spec_input_files(*left) + spec_input_files(*right),
        AstView::Sequence { left, right } => spec_input_files(*left) + spec_input_files(*right),
    }
}

impl AstNode {
    /// The names of the files this tree reads through in-redirections —
    /// what a host must have in the file table before the walk.
    pub fn input_files(&self) -> (r: Vec<String>)
        ensures
            strings_view(r@) == spec_input_files(self@),
        decreases *self,
    {
        match self {
            AstNode::Command { name, flags, args } => {
                let r = Vec::new();
                proof {
                    assert(strings_view(r@) =~= Seq::<Seq<char>>::empty());
                }
                r
            },
            AstNode::Redirect { command, operator, file } => {
                let mut r = command.input_files();
                match operator {
                    Token::RedirectIn => {
                        let ghost prev = r@;
                        r.push(file.clone());
                        proof {
                            assert(strings_view(r@) =~= strings_view(prev).push(file@));
                        }
                    },
                    _ => {},
                }
                r
            },
            AstNode::Pipeline { left, right } => {
                let mut r = left.input_files();
                let mut rest = right.input_files();
                let ghost prev = r@;
                let ghost prev2 = rest@;
                r.append(&mut rest);
                proof {
                    assert(strings_view(prev + prev2) =~= strings_view(prev) + strings_view(
                        prev2,
                    ));
                }
                r
            },
            AstNode::Sequence { left, right } => {
                let mut r = left.input_files();
                let mut rest = right.input_files();
                let ghost prev = r@;
                let ghost prev2 = rest@;
                r.append(&mut rest);
                proof {
                    assert(strings_view(prev + prev2) =~= strings_view(prev) + strings_view(
                        prev2,
                    ));
                }
                r
            },
        }
    }
}

} // verus!
