//! The commands that the shell carries out itself.

use vstd::prelude::*;
use crate::text::{same_text, texts};

verus! {

/// What the tokens of a command line ask of the shell itself.
#[derive(Debug, PartialEq)]
pub enum Builtin {
    /// Nothing: the line is empty or begins with a space.
    Blank,
    /// To end the shell.
    Exit,
    /// To change the working directory, to the given path or, without
    /// one, to the home directory.
    ChangeDir(Option<String>),
    /// Nothing: the line names a program to run.
    External,
}

/// The mathematical value of a [`Builtin`].
pub enum BuiltinView {
    Blank,
    Exit,
    ChangeDir(Option<Seq<char>>),
    External,
}

impl View for Builtin {
    type V = BuiltinView;

    open spec fn view(&self) -> BuiltinView {
        match *self {
            Builtin::Blank => BuiltinView::Blank,
            Builtin::Exit => BuiltinView::Exit,
            Builtin::ChangeDir(path) => BuiltinView::ChangeDir(
                match path {
                    Some(text) => Some(text@),
                    None => None,
                },
            ),
            Builtin::External => BuiltinView::External,
        }
    }
}

/// What the tokens ask of the shell itself, going by the first token:
/// `quit` and `exit` end the shell, and `cd` changes the directory, to
/// the third token, which follows the space behind `cd`, where there is
/// one.
pub open spec fn builtin_of(argv: Seq<Seq<char>>) -> BuiltinView {
    if argv.len() == 0 || argv[0] == " "@ || argv[0] == ""@ {
        BuiltinView::Blank
    } else if argv[0] == "quit"@ || argv[0] == "exit"@ {
        BuiltinView::Exit
    } else if argv[0] == "cd"@ {
        BuiltinView::ChangeDir(
            if argv.len() > 2 {
                Some(argv[2])
            } else {
                None
            },
        )
    } else {
        BuiltinView::External
    }
}

/// Says what the tokens of a command line ask of the shell itself.
pub fn builtin_cmd(argv: &Vec<String>) -> (r: Builtin)
    ensures
        r@ == builtin_of(texts(argv@)),
{
    if argv.len() == 0 {
        return Builtin::Blank;
    }
    let first = argv[0].as_str();
    if same_text(first, " ") || same_text(first, "") {
        Builtin::Blank
    } else if same_text(first, "quit") || same_text(first, "exit") {
        Builtin::Exit
    } else if same_text(first, "cd") {
        if argv.len() > 2 {
            Builtin::ChangeDir(Some(argv[2].clone()))
        } else {
            Builtin::ChangeDir(None)
        }
    } else {
        Builtin::External
    }
}

} // verus!
