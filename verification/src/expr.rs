//! Commands as values: what a stored function runs.

use vstd::prelude::*;
use crate::text::texts;

verus! {

/// A program with its arguments.
#[derive(Debug)]
pub struct Command {
    pub cmd: String,
    pub args: Vec<String>,
}

/// The mathematical value of a [`Command`].
pub struct CommandView {
    pub cmd: Seq<char>,
    pub args: Seq<Seq<char>>,
}

impl View for Command {
    type V = CommandView;

    open spec fn view(&self) -> CommandView {
        CommandView { cmd: self.cmd@, args: texts(self.args@) }
    }
}

} // verus!
