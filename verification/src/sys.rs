//! The calls into the operating system, and what they report.

use nix::errno::Errno;
use nix::sys::signal::{kill, Signal};
use nix::sys::wait::{waitpid, WaitPidFlag, WaitStatus};
use nix::unistd::{getpid, Pid};
use vstd::prelude::*;

verus! {

/// The error numbers of the operating system, as `nix` has them.
#[verifier::external_type_specification]
#[verifier::external_body]
pub struct ExErrno(Errno);

/// What one wait for a child process reported.
#[derive(Debug, Clone, Copy, PartialEq, Eq, Structural)]
pub enum WaitEvent {
    /// The process with this id exited with this code.
    Exited(i32, i32),
    /// The process with this id was terminated by a signal.
    Signaled(i32),
    /// The process with this id was stopped.
    Stopped(i32),
    /// No child has changed state; only a wait that does not block says so.
    StillAlive,
    /// There is no child to wait for.
    NoChildren,
    /// The wait failed, or reported what a shell does not ask for.
    Unexpected,
}

/// Waits for any child of this process to exit, to be terminated or to
/// stop; with `nohang` it returns at once where none has.
///
/// Wraps `nix::sys::wait::waitpid`, called for any child with the flag
/// `WUNTRACED`, and with `WNOHANG` where `nohang` is set. What comes back
/// depends on the children, so nothing is claimed of it; without `nohang`
/// the call returns only once a child has changed state or none is left.
/// The error `ECHILD` is reported as [`WaitEvent::NoChildren`]; every
/// other error and every other status as [`WaitEvent::Unexpected`].
#[verifier::external_body]
pub(crate) fn wait_any_child(nohang: bool) -> (event: WaitEvent) {
    let mut flags = WaitPidFlag::WUNTRACED;
    flags.set(WaitPidFlag::WNOHANG, nohang);
    match waitpid(None, Some(flags)) {
        Ok(WaitStatus::Exited(pid, code)) => WaitEvent::Exited(pid.as_raw(), code),
        Ok(WaitStatus::Signaled(pid, _, _)) => WaitEvent::Signaled(pid.as_raw()),
        Ok(WaitStatus::Stopped(pid, _)) => WaitEvent::Stopped(pid.as_raw()),
        Ok(WaitStatus::StillAlive) => WaitEvent::StillAlive,
        Err(Errno::ECHILD) => WaitEvent::NoChildren,
        _ => WaitEvent::Unexpected,
    }
}

/// Sends `SIGCONT` to `target`: to one process where it is positive, to
/// the process group `-target` where it is below -1, and to the group of
/// this process where it is 0.
///
/// Wraps `nix::sys::signal::kill`. Whether the signal could be sent
/// depends on the processes that exist, so nothing is claimed of the
/// result.
#[verifier::external_body]
pub(crate) fn send_continue(target: i32) -> (r: Result<(), Errno>) {
    kill(Pid::from_raw(target), Signal::SIGCONT)
}

/// The id of this process.
///
/// Wraps `nix::unistd::getpid`. The id differs from run to run, so
/// nothing is claimed of it.
#[verifier::external_body]
pub(crate) fn current_pid() -> (r: i32) {
    getpid().as_raw()
}

} // verus!
