//! From a command line to a job in the table.

use vstd::prelude::*;
use crate::builtin::{builtin_cmd, builtin_of, Builtin, BuiltinView};
use crate::parser::{
    asks_background, parseargs, parsed, parseline, reading_of, tokens, Parsed,
};
use crate::process::{ProcessStatus, ProcessView};
use crate::shell::{new_stages, Shell, ShellView};

verus! {

/// What a command line asks for.
#[derive(Debug, PartialEq)]
pub enum Request {
    /// Nothing: the line is empty or begins with a space.
    Blank,
    /// To end the shell.
    Exit,
    /// To change the working directory, to the given path or, without
    /// one, to the home directory.
    ChangeDir(Option<String>),
    /// To start the job with the id `job`, which has been created, and
    /// then to wait for it, or not to wait where `background` is set.
    Launch { job: u32, background: bool },
    /// To run a job, for which no id is left.
    Exhausted,
}

/// The mathematical value of a [`Request`].
pub enum RequestView {
    Blank,
    Exit,
    ChangeDir(Option<Seq<char>>),
    Launch { job: u32, background: bool },
    Exhausted,
}

impl View for Request {
    type V = RequestView;

    open spec fn view(&self) -> RequestView {
        match *self {
            Request::Blank => RequestView::Blank,
            Request::Exit => RequestView::Exit,
            Request::ChangeDir(path) => RequestView::ChangeDir(
                match path {
                    Some(text) => Some(text@),
                    None => None,
                },
            ),
            Request::Launch { job, background } => RequestView::Launch { job, background },
            Request::Exhausted => RequestView::Exhausted,
        }
    }
}

/// The stages of the job that a command line describes, one for each
/// command that was read, none of them started.
pub open spec fn stages_of(p: Parsed) -> Seq<ProcessView> {
    Seq::new(
        p.cmds.len(),
        |i: int|
            ProcessView {
                cmd: p.cmds[i],
                args: p.args[i],
                stdin_redir: p.stdin_redir[i],
                stdout_redir: p.stdout_redir[i],
                status: ProcessStatus::Undef,
                process: None,
            },
    )
}

/// The shell after the job that a command line describes has been
/// created.
pub open spec fn submitted(shell: ShellView, cmdline: Seq<char>) -> ShellView {
    shell.created(
        cmdline,
        stages_of(parsed(tokens(cmdline), tokens(cmdline).len(), shell.variables)),
    )
}

/// What a command line asks for, and the id that a job would take.
pub open spec fn request_of(shell: ShellView, cmdline: Seq<char>) -> RequestView {
    match builtin_of(tokens(cmdline)) {
        BuiltinView::Blank => RequestView::Blank,
        BuiltinView::Exit => RequestView::Exit,
        BuiltinView::ChangeDir(path) => RequestView::ChangeDir(path),
        BuiltinView::External => if shell.next_job_id == u32::MAX {
            RequestView::Exhausted
        } else {
            RequestView::Launch {
                job: shell.next_job_id,
                background: asks_background(cmdline),
            }
        },
    }
}

/// Reads a command line. A line that names a program becomes a job in
/// the table, not yet started; a line for the shell itself, and a line
/// for which no job id is left, change nothing.
pub fn eval(cmdline: &str, shell: &mut Shell) -> (r: Request)
    requires
        old(shell).wf(),
    ensures
        final(shell).wf(),
        r@ == request_of(old(shell)@, cmdline@),
        final(shell)@ == if r is Launch {
            submitted(old(shell)@, cmdline@)
        } else {
            old(shell)@
        },
        r matches Request::Launch { job, .. } ==> {
            &&& final(shell)@.has_job(job)
            &&& final(shell)@.job(job).state is Undef
        },
{
    let (background, argv) = parseline(cmdline);
    match builtin_cmd(&argv) {
        Builtin::Blank => Request::Blank,
        Builtin::Exit => Request::Exit,
        Builtin::ChangeDir(path) => Request::ChangeDir(path),
        Builtin::External => {
            if shell.next_job_id() == u32::MAX {
                return Request::Exhausted;
            }
            let (cmds, args, env, stdin_redir, stdout_redir) = parseargs(
                &argv,
                shell.variables(),
            );
            proof {
                let p = parsed(tokens(cmdline@), tokens(cmdline@).len(), shell@.variables);
                let read = reading_of(cmds@, args@, env@, stdin_redir@, stdout_redir@, false);
                assert(read.cmds == p.cmds && read.args == p.args);
                assert(read.stdin_redir == p.stdin_redir && read.stdout_redir == p.stdout_redir);
                assert(new_stages(cmds@, args@, stdin_redir@, stdout_redir@) =~= stages_of(p));
            }
            let job = shell.create_job(cmdline, cmds, args, stdin_redir, stdout_redir);
            Request::Launch { job, background }
        },
    }
}

} // verus!
