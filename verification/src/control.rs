//! Job control: reaping the status changes of child processes, waiting for
//! a job, and moving jobs between the foreground and the background.

use nix::errno::Errno;
use vstd::prelude::*;
use vstd::string::StringExecFns;
use crate::process::{
    lemma_owned_stage, lemma_resume_agrees, lemma_update_keeps_identity, Job, JobView,
    ProcessStatus, ProcessView, SIGNALED_CODE,
};
use crate::shell::{
    lemma_slot, lemma_tracked_owner, lemma_with_job, lemma_without_job, Shell, ShellView,
};
use crate::sys::{send_continue, wait_any_child, WaitEvent};
use crate::text::{decimal, signed_decimal, to_decimal, to_signed_decimal};

verus! {

/// Why an operation on a job did not run to its end.
#[derive(Debug, Clone, Copy, PartialEq, Eq, Structural)]
pub enum JobError {
    /// The continue signal could not be sent to the process group.
    Signal,
    /// The wait for a child failed, or reported what a shell does not
    /// ask for.
    Wait,
    /// No child is left to report anything, and the job has neither
    /// stopped nor exited.
    Idle,
    /// The allowed number of reports was used up, and the job has neither
    /// stopped nor exited.
    Limit,
}

/// How a wait for a job ended.
#[derive(Debug, PartialEq)]
pub struct WaitReport {
    /// The aggregate state of the job: `Stopped` or `Exited`.
    pub status: ProcessStatus,
    /// The line to show to the user, if there is one.
    pub notice: Option<String>,
}

/// The mathematical value of a [`WaitReport`].
pub struct WaitReportView {
    pub status: ProcessStatus,
    pub notice: Option<Seq<char>>,
}

impl View for WaitReport {
    type V = WaitReportView;

    open spec fn view(&self) -> WaitReportView {
        WaitReportView {
            status: self.status,
            notice: match self.notice {
                Some(text) => Some(text@),
                None => None,
            },
        }
    }
}

/// The process and the status that an event reports, if it reports any:
/// an exit with its code, a termination by a signal as an exit with
/// [`SIGNALED_CODE`], and a stop.
pub open spec fn report_of(event: WaitEvent) -> Option<(i32, ProcessStatus)> {
    match event {
        WaitEvent::Exited(pid, code) => Some((pid, ProcessStatus::Exited(code))),
        WaitEvent::Signaled(pid) => Some((pid, ProcessStatus::Exited(SIGNALED_CODE))),
        WaitEvent::Stopped(pid) => Some((pid, ProcessStatus::Stopped)),
        _ => None,
    }
}

/// The shell after an event has been recorded.
pub open spec fn reaped(shell: ShellView, event: WaitEvent) -> ShellView {
    match report_of(event) {
        Some((pid, status)) => shell.notified(pid, status),
        None => shell,
    }
}

/// What the recording of an event returns: the process that the event is
/// about, nothing where it is about none, and an error for an event that
/// a shell cannot handle.
pub open spec fn wait_result(event: WaitEvent) -> Result<Option<i32>, JobError> {
    match event {
        WaitEvent::Unexpected => Err(JobError::Wait),
        _ => match report_of(event) {
            Some((pid, _)) => Ok(Some(pid)),
            None => Ok(None),
        },
    }
}

/// The line that announces the end of a background job.
pub open spec fn done_notice(job: JobView) -> Seq<char> {
    "["@ + decimal(job.id as nat) + "] ("@ + signed_decimal(job.pgid as int) + ") Done: "@
        + job.pipeline
}

/// The line that announces that a job has stopped.
pub open spec fn stopped_notice(job: JobView) -> Seq<char> {
    "Job ["@ + decimal(job.id as nat) + "] ("@ + signed_decimal(job.pgid as int) + ") stopped "@
        + job.pipeline
}

/// What a wait for the job with this id finds where the job has exited
/// or stopped: its state, and the line to show.
pub open spec fn settlement(shell: ShellView, id: u32) -> Option<WaitReportView> {
    let job = shell.job(id);
    if job.completed() {
        Some(
            WaitReportView {
                status: job.state,
                notice: if shell.background.contains(id) {
                    Some(done_notice(job))
                } else {
                    None
                },
            },
        )
    } else if job.stopped() {
        Some(WaitReportView { status: job.state, notice: Some(stopped_notice(job)) })
    } else {
        None
    }
}

/// The shell after a wait for the job with this id has ended: a job that
/// has exited is deleted, and nothing else changes.
pub open spec fn settled(shell: ShellView, id: u32) -> ShellView {
    if shell.job(id).completed() {
        shell.deleted(id)
    } else {
        shell
    }
}

/// Whether two stages differ in their status at most.
pub open spec fn same_stage(before: ProcessView, after: ProcessView) -> bool {
    after == before.with_status(after.status)
}

/// Whether two jobs differ in their aggregate state and in the statuses
/// of their stages at most.
pub open spec fn same_job(before: JobView, after: JobView) -> bool {
    &&& after.id == before.id
    &&& after.pgid == before.pgid
    &&& after.pipeline == before.pipeline
    &&& after.processes.len() == before.processes.len()
    &&& forall|i: int|
        0 <= i < before.processes.len() ==> same_stage(
            #[trigger] before.processes[i],
            after.processes[i],
        )
}

/// Whether `after` is `before` with nothing changed but the states of
/// jobs and the statuses of their stages.
pub open spec fn evolved(before: ShellView, after: ShellView) -> bool {
    &&& after.pgid == before.pgid
    &&& after.interactive == before.interactive
    &&& after.variables == before.variables
    &&& after.aliases == before.aliases
    &&& after.background == before.background
    &&& after.next_job_id == before.next_job_id
    &&& after.jobs.len() == before.jobs.len()
    &&& forall|i: int|
        0 <= i < before.jobs.len() ==> same_job(#[trigger] before.jobs[i], after.jobs[i])
}

/// The shell after a sequence of events has been recorded, one after the
/// other.
pub open spec fn replayed(shell: ShellView, events: Seq<WaitEvent>) -> ShellView
    decreases events.len(),
{
    if events.len() == 0 {
        shell
    } else {
        reaped(replayed(shell, events.drop_last()), events.last())
    }
}

/// Whether a wait for the job with this id, in which the waits for a
/// child reported `events` in this order, leads from `before` to `after`
/// with the result `r`. A wait for a child is made only while the job has
/// neither exited nor stopped, at most `max_events` times, and only
/// after each earlier wait has reported a process. The wait for the job
/// succeeds with its settlement once the job has exited or stopped; it
/// fails after an event that the shell cannot handle, after an event that
/// reports no process, or at the limit.
pub open spec fn wait_trace(
    before: ShellView,
    after: ShellView,
    id: u32,
    r: Result<WaitReportView, JobError>,
    max_events: nat,
    events: Seq<WaitEvent>,
) -> bool {
    let mid = replayed(before, events);
    &&& events.len() <= max_events
    &&& forall|k: int|
        0 <= k < events.len() ==> settlement(#[trigger] replayed(before, events.take(k)), id)
            is None
    &&& forall|k: int| 0 <= k < events.len() - 1 ==> report_of(#[trigger] events[k]) is Some
    &&& match r {
        Ok(report) => {
            &&& events.len() > 0 ==> report_of(events.last()) is Some
            &&& settlement(mid, id) == Some(report)
            &&& after == settled(mid, id)
        },
        Err(JobError::Signal) => false,
        Err(JobError::Wait) => {
            &&& events.len() > 0
            &&& events.last() is Unexpected
            &&& after == mid
        },
        Err(JobError::Idle) => {
            &&& events.len() > 0
            &&& !(events.last() is Unexpected)
            &&& report_of(events.last()) is None
            &&& after == mid
        },
        Err(JobError::Limit) => {
            &&& events.len() == max_events
            &&& events.len() > 0 ==> report_of(events.last()) is Some
            &&& settlement(mid, id) is None
            &&& after == mid
        },
    }
}

/// Whether a wait for the job with this id can lead from `before` to
/// `after` with the result `r`: whether it does so for some sequence of
/// events.
pub open spec fn waited(
    before: ShellView,
    after: ShellView,
    id: u32,
    r: Result<WaitReportView, JobError>,
    max_events: nat,
) -> bool {
    exists|events: Seq<WaitEvent>| wait_trace(before, after, id, r, max_events, events)
}

/// The view of the result of a wait.
pub open spec fn result_view(r: Result<WaitReport, JobError>) -> Result<WaitReportView, JobError> {
    match r {
        Ok(report) => Ok(report@),
        Err(e) => Err(e),
    }
}

/// A report changes nothing of a job but its state and the status of one
/// stage.
pub proof fn lemma_update_same_job(job: JobView, pid: i32, status: ProcessStatus)
    ensures
        same_job(job, job.updated(pid, status)),
{
    if job.owns(pid) {
        lemma_owned_stage(job.processes, pid);
    }
}

/// Recording an event changes nothing of a shell but the states of jobs
/// and the statuses of stages.
pub proof fn lemma_reaped_evolved(shell: ShellView, event: WaitEvent)
    ensures
        evolved(shell, reaped(shell, event)),
{
    match report_of(event) {
        Some((pid, status)) => {
            if shell.tracks(pid) {
                let k = shell.owner(pid);
                lemma_tracked_owner(shell, pid);
                lemma_update_same_job(shell.jobs[k], pid, status);
            }
        },
        None => {},
    }
}

/// Changes of states and statuses compose.
pub proof fn lemma_evolved_transitive(a: ShellView, b: ShellView, c: ShellView)
    requires
        evolved(a, b),
        evolved(b, c),
    ensures
        evolved(a, c),
{
}

/// Where nothing but states and statuses has changed, the table holds
/// the same jobs under the same ids, each with its process group and its
/// command line.
pub proof fn lemma_evolved_jobs(before: ShellView, after: ShellView, id: u32)
    requires
        before.wf(),
        after.wf(),
        evolved(before, after),
    ensures
        after.has_job(id) == before.has_job(id),
        before.has_job(id) ==> same_job(before.job(id), after.job(id)),
{
    if after.has_job(id) {
        let k = after.slot(id);
        lemma_slot(before, id, k);
    }
}

/// Recording an event keeps the shell well formed.
pub proof fn lemma_reaped_wf(shell: ShellView, event: WaitEvent)
    requires
        shell.wf(),
    ensures
        reaped(shell, event).wf(),
{
    match report_of(event) {
        Some((pid, status)) => {
            if shell.tracks(pid) {
                lemma_tracked_owner(shell, pid);
            }
        },
        None => {},
    }
}

/// Recording events keeps the shell well formed, and changes nothing but
/// the states of jobs and the statuses of stages.
pub proof fn lemma_replayed(shell: ShellView, events: Seq<WaitEvent>)
    requires
        shell.wf(),
    ensures
        replayed(shell, events).wf(),
        evolved(shell, replayed(shell, events)),
    decreases events.len(),
{
    if events.len() > 0 {
        let before = replayed(shell, events.drop_last());
        lemma_replayed(shell, events.drop_last());
        lemma_reaped_wf(before, events.last());
        lemma_reaped_evolved(before, events.last());
    }
}

/// The process and the status that an event reports.
pub fn classify(event: WaitEvent) -> (r: Option<(i32, ProcessStatus)>)
    ensures
        r == report_of(event),
{
    match event {
        WaitEvent::Exited(pid, code) => Some((pid, ProcessStatus::Exited(code))),
        WaitEvent::Signaled(pid) => Some((pid, ProcessStatus::Exited(SIGNALED_CODE))),
        WaitEvent::Stopped(pid) => Some((pid, ProcessStatus::Stopped)),
        _ => None,
    }
}

/// Records what a wait for a child reported: the job that owns the
/// process takes the new status, and a report for a process of no job is
/// ignored.
pub fn record_wait(shell: &mut Shell, event: WaitEvent) -> (r: Result<Option<i32>, JobError>)
    requires
        old(shell).wf(),
    ensures
        final(shell).wf(),
        final(shell)@ == reaped(old(shell)@, event),
        r == wait_result(event),
{
    match event {
        WaitEvent::Unexpected => Err(JobError::Wait),
        _ => match classify(event) {
            Some((pid, status)) => {
                shell.notify(pid, status);
                Ok(Some(pid))
            },
            None => Ok(None),
        },
    }
}

/// Waits once for any child of the shell to change state, and records
/// what is reported. With `block` unset it does not wait where no child
/// has changed state. Whatever is reported, the shell ends up as
/// [`record_wait`] leaves it for some event.
pub fn wait_for_process(shell: &mut Shell, block: bool) -> (r: Result<Option<i32>, JobError>)
    requires
        old(shell).wf(),
    ensures
        final(shell).wf(),
        exists|event: WaitEvent|
            final(shell)@ == #[trigger] reaped(old(shell)@, event) && r == wait_result(event),
{
    let event = wait_any_child(!block);
    record_wait(shell, event)
}

/// The line that announces the end of a background job.
pub fn done_message(job: &Job) -> (r: String)
    ensures
        r@ == done_notice(job@),
{
    let mut r = String::from_str("[");
    r.append(to_decimal(job.id() as u64).as_str());
    r.append("] (");
    r.append(to_signed_decimal(job.pgid() as i64).as_str());
    r.append(") Done: ");
    r.append(job.pipeline());
    r
}

/// The line that announces that a job has stopped.
pub fn stopped_message(job: &Job) -> (r: String)
    ensures
        r@ == stopped_notice(job@),
{
    let mut r = String::from_str("Job [");
    r.append(to_decimal(job.id() as u64).as_str());
    r.append("] (");
    r.append(to_signed_decimal(job.pgid() as i64).as_str());
    r.append(") stopped ");
    r.append(job.pipeline());
    r
}

/// Deletes the job with this id: takes it out of the background set and
/// out of the table. Returns the line that announces its end where it was
/// in the background.
pub fn delete_job(shell: &mut Shell, job_id: u32) -> (r: Option<String>)
    requires
        old(shell).wf(),
        old(shell)@.has_job(job_id),
    ensures
        final(shell).wf(),
        final(shell)@ == old(shell)@.deleted(job_id),
        !final(shell)@.has_job(job_id),
        !final(shell)@.background.contains(job_id),
        match r {
            Some(text) => old(shell)@.background.contains(job_id) && text@ == done_notice(
                old(shell)@.job(job_id),
            ),
            None => !old(shell)@.background.contains(job_id),
        },
{
    let notice = if shell.remove_background_job(job_id) {
        match shell.job(job_id) {
            Some(job) => Some(done_message(job)),
            None => None,
        }
    } else {
        None
    };
    shell.remove_job(job_id);
    notice
}

/// Ends a wait for the job with this id, where the job has exited or
/// stopped: a job that has exited is deleted, and the report says what to
/// show. Returns `None`, and changes nothing, for a job that has done
/// neither.
pub fn settle(shell: &mut Shell, job_id: u32) -> (r: Option<WaitReport>)
    requires
        old(shell).wf(),
        old(shell)@.has_job(job_id),
    ensures
        final(shell).wf(),
        final(shell)@ == settled(old(shell)@, job_id),
        match r {
            Some(report) => settlement(old(shell)@, job_id) == Some(report@),
            None => settlement(old(shell)@, job_id) is None,
        },
{
    let (status, stopped_line) = match shell.job(job_id) {
        Some(job) => {
            if job.completed() {
                (job.state(), None)
            } else if job.stopped() {
                (job.state(), Some(stopped_message(job)))
            } else {
                return None;
            }
        },
        None => {
            return None;
        },
    };
    match status {
        ProcessStatus::Exited(_) => {
            let notice = delete_job(shell, job_id);
            Some(WaitReport { status, notice })
        },
        _ => Some(WaitReport { status, notice: stopped_line }),
    }
}

/// Waits until the job with this id has stopped or exited, recording
/// every report that arrives meanwhile, those for other jobs too. At most
/// `max_events` reports are waited for. A job that has exited is deleted.
///
/// The wait fails with [`JobError::Wait`] where a wait for a child fails,
/// with [`JobError::Idle`] where no child is left to report, and with
/// [`JobError::Limit`] after `max_events` reports; the job is then still
/// in the table. A job that has already stopped or exited is settled
/// without any wait.
pub fn wait_for_job(shell: &mut Shell, job_id: u32, max_events: usize) -> (r: Result<
    WaitReport,
    JobError,
>)
    requires
        old(shell).wf(),
        old(shell)@.has_job(job_id),
    ensures
        final(shell).wf(),
        waited(old(shell)@, final(shell)@, job_id, result_view(r), max_events as nat),
        settlement(old(shell)@, job_id) is Some ==> {
            &&& final(shell)@ == settled(old(shell)@, job_id)
            &&& result_view(r) == Ok::<WaitReportView, JobError>(
                settlement(old(shell)@, job_id)->0,
            )
        },
{
    let mut left = max_events;
    let ghost mut events: Seq<WaitEvent> = Seq::empty();
    proof {
        shell.lemma_wf();
    }
    loop
        invariant
            shell.wf(),
            shell@.has_job(job_id),
            old(shell)@.wf(),
            old(shell)@.has_job(job_id),
            left <= max_events,
            events.len() == max_events - left,
            shell@ == replayed(old(shell)@, events),
            forall|k: int|
                0 <= k < events.len() ==> settlement(
                    #[trigger] replayed(old(shell)@, events.take(k)),
                    job_id,
                ) is None,
            forall|k: int| 0 <= k < events.len() ==> report_of(#[trigger] events[k]) is Some,
            events.len() > 0 ==> settlement(old(shell)@, job_id) is None,
        decreases left,
    {
        let ghost mid = shell@;
        match settle(shell, job_id) {
            Some(report) => {
                assert(wait_trace(
                    old(shell)@,
                    shell@,
                    job_id,
                    Ok(report@),
                    max_events as nat,
                    events,
                ));
                return Ok(report);
            },
            None => {},
        }
        if left == 0 {
            assert(wait_trace(
                old(shell)@,
                shell@,
                job_id,
                Err(JobError::Limit),
                max_events as nat,
                events,
            ));
            return Err(JobError::Limit);
        }
        left = left - 1;
        let r = wait_for_process(shell, true);
        let ghost event = choose|event: WaitEvent|
            shell@ == #[trigger] reaped(mid, event) && r == wait_result(event);
        let ghost longer = events.push(event);
        proof {
            assert(longer.drop_last() =~= events);
            assert forall|k: int| 0 <= k < longer.len() implies settlement(
                #[trigger] replayed(old(shell)@, longer.take(k)),
                job_id,
            ) is None by {
                if k < events.len() {
                    assert(longer.take(k) =~= events.take(k));
                }
            }
        }
        match r {
            Ok(Some(_)) => {},
            Ok(None) => {
                assert(wait_trace(
                    old(shell)@,
                    shell@,
                    job_id,
                    Err(JobError::Idle),
                    max_events as nat,
                    longer,
                ));
                return Err(JobError::Idle);
            },
            Err(_) => {
                assert(wait_trace(
                    old(shell)@,
                    shell@,
                    job_id,
                    Err(JobError::Wait),
                    max_events as nat,
                    longer,
                ));
                return Err(JobError::Wait);
            },
        }
        proof {
            events = longer;
            lemma_replayed(old(shell)@, events);
        }
    }
}

/// The shell with the job with this id in the background set.
pub open spec fn backgrounded(shell: ShellView, id: u32) -> ShellView {
    ShellView { background: shell.background.insert(id), ..shell }
}

/// The shell with the job with this id out of the background set.
pub open spec fn foregrounded(shell: ShellView, id: u32) -> ShellView {
    ShellView { background: shell.background.remove(id), ..shell }
}

/// The shell after the job with this id has been told to continue.
pub open spec fn continued(shell: ShellView, id: u32) -> ShellView {
    shell.with_job(id, shell.job(id).resumed())
}

/// What a signal to a whole process group is addressed to: the negated
/// id of the group.
pub fn group_target(pgid: i32) -> (r: i32)
    requires
        pgid > i32::MIN,
    ensures
        r == -pgid,
{
    -pgid
}

/// Sends the continue signal to every process of a group.
fn kill_process_group(pgid: i32) -> (r: Result<(), Errno>)
    requires
        pgid > i32::MIN,
{
    send_continue(group_target(pgid))
}

/// Tells the processes of the job with this id to continue.
fn continue_group(shell: &Shell, job_id: u32) -> (r: Result<(), JobError>)
    requires
        shell.wf(),
        shell@.has_job(job_id),
    ensures
        r matches Err(e) ==> e == JobError::Signal,
{
    proof {
        shell.lemma_wf();
    }
    match shell.job(job_id) {
        Some(job) => signal_outcome(kill_process_group(job.pgid())),
        None => Ok(()),
    }
}

/// What the sending of the continue signal comes to: it succeeds where
/// the signal was sent, and fails with [`JobError::Signal`] whatever the
/// error of the system was.
pub fn signal_outcome(sent: Result<(), Errno>) -> (r: Result<(), JobError>)
    ensures
        r == if sent is Ok {
            Ok::<(), JobError>(())
        } else {
            Err::<(), JobError>(JobError::Signal)
        },
{
    match sent {
        Ok(_) => Ok(()),
        Err(_) => Err(JobError::Signal),
    }
}

/// Runs the job with this id in the foreground: takes it out of the
/// background set, tells its process group to continue where `sigcont`
/// is set, and waits for it as [`wait_for_job`] does.
///
/// Fails with [`JobError::Signal`], before any wait, where the signal
/// could not be sent.
pub fn run_in_forground(shell: &mut Shell, job_id: u32, sigcont: bool, max_events: usize) -> (r:
    Result<WaitReport, JobError>)
    requires
        old(shell).wf(),
        old(shell)@.has_job(job_id),
    ensures
        final(shell).wf(),
        !final(shell)@.background.contains(job_id),
        match r {
            Err(JobError::Signal) => sigcont && final(shell)@ == foregrounded(
                old(shell)@,
                job_id,
            ),
            _ => waited(
                foregrounded(old(shell)@, job_id),
                final(shell)@,
                job_id,
                result_view(r),
                max_events as nat,
            ),
        },
        !sigcont && settlement(foregrounded(old(shell)@, job_id), job_id) is Some ==> {
            &&& final(shell)@ == settled(foregrounded(old(shell)@, job_id), job_id)
            &&& result_view(r) == Ok::<WaitReportView, JobError>(
                settlement(foregrounded(old(shell)@, job_id), job_id)->0,
            )
        },
{
    proof {
        shell.lemma_wf();
    }
    shell.remove_background_job(job_id);
    if sigcont {
        match continue_group(shell, job_id) {
            Ok(_) => {},
            Err(_) => {
                return Err(JobError::Signal);
            },
        }
    }
    let r = wait_for_job(shell, job_id, max_events);
    proof {
        lemma_waited_background(
            foregrounded(old(shell)@, job_id),
            shell@,
            job_id,
            result_view(r),
            max_events as nat,
        );
    }
    r
}

/// Runs the job with this id in the background: puts it into the
/// background set, tells its process group to continue where `sigcont`
/// is set, and returns without waiting.
///
/// Fails with [`JobError::Signal`] where the signal could not be sent;
/// the job is in the background set all the same.
pub fn run_in_background(shell: &mut Shell, job_id: u32, sigcont: bool) -> (r: Result<
    (),
    JobError,
>)
    requires
        old(shell).wf(),
        old(shell)@.has_job(job_id),
    ensures
        final(shell).wf(),
        final(shell)@ == backgrounded(old(shell)@, job_id),
        !sigcont ==> r is Ok,
        r matches Err(e) ==> e == JobError::Signal,
{
    shell.add_background_job(job_id);
    if sigcont {
        continue_group(shell, job_id)
    } else {
        Ok(())
    }
}

/// Lets the job with this id continue: every stopped stage, and the job,
/// count as running again, and the process group is told to continue.
/// With `background` set the job then runs in the background and nothing
/// is returned; otherwise it runs in the foreground, and the report of the
/// wait is returned.
pub fn continue_job(shell: &mut Shell, job_id: u32, background: bool, max_events: usize) -> (r:
    Result<Option<WaitReport>, JobError>)
    requires
        old(shell).wf(),
        old(shell)@.has_job(job_id),
    ensures
        final(shell).wf(),
        background ==> {
            &&& final(shell)@ == backgrounded(continued(old(shell)@, job_id), job_id)
            &&& r matches Ok(report) ==> report is None
            &&& r matches Err(e) ==> e == JobError::Signal
        },
        !background ==> {
            &&& !final(shell)@.background.contains(job_id)
            &&& match r {
                Ok(Some(report)) => waited(
                    foregrounded(continued(old(shell)@, job_id), job_id),
                    final(shell)@,
                    job_id,
                    Ok(report@),
                    max_events as nat,
                ),
                Ok(None) => false,
                Err(JobError::Signal) => final(shell)@ == foregrounded(
                    continued(old(shell)@, job_id),
                    job_id,
                ),
                Err(e) => waited(
                    foregrounded(continued(old(shell)@, job_id), job_id),
                    final(shell)@,
                    job_id,
                    Err(e),
                    max_events as nat,
                ),
            }
        },
{
    shell.resume_job(job_id);
    if background {
        match run_in_background(shell, job_id, true) {
            Ok(_) => Ok(None),
            Err(e) => Err(e),
        }
    } else {
        match run_in_forground(shell, job_id, true, max_events) {
            Ok(report) => Ok(Some(report)),
            Err(e) => Err(e),
        }
    }
}

/// A wait never puts a job into the background set: a job that was not in
/// it before the wait is not in it afterwards.
pub proof fn lemma_waited_background(
    before: ShellView,
    after: ShellView,
    id: u32,
    r: Result<WaitReportView, JobError>,
    max_events: nat,
)
    requires
        before.wf(),
        waited(before, after, id, r, max_events),
    ensures
        forall|other: u32| #[trigger]
            after.background.contains(other) ==> before.background.contains(other),
{
    let events = choose|events: Seq<WaitEvent>|
        wait_trace(before, after, id, r, max_events, events);
    lemma_replayed(before, events);
}

/// A job that is put into the background and then brought to the
/// foreground is no longer in the background set. Unless it has exited,
/// it is still in the table under its id, with the process group that it
/// had. It has left the table exactly where the wait reports an exit.
pub proof fn lemma_background_then_foreground(
    shell: ShellView,
    id: u32,
    after: ShellView,
    r: Result<WaitReportView, JobError>,
    max_events: nat,
)
    requires
        shell.wf(),
        shell.has_job(id),
        waited(foregrounded(backgrounded(shell, id), id), after, id, r, max_events),
    ensures
        backgrounded(shell, id).background.contains(id),
        backgrounded(shell, id).jobs == shell.jobs,
        !after.background.contains(id),
        after.has_job(id) ==> after.job(id).id == id && after.job(id).pgid == shell.job(id).pgid,
        after.has_job(id) <==> !(r matches Ok(report) && report.status is Exited),
{
    let start = foregrounded(backgrounded(shell, id), id);
    let events = choose|events: Seq<WaitEvent>|
        wait_trace(start, after, id, r, max_events, events);
    lemma_replayed(start, events);
}

/// Telling a job that has not exited to continue leaves every job in
/// agreement with its stages.
pub proof fn lemma_continued_agrees(shell: ShellView, id: u32)
    requires
        shell.agrees(),
        shell.has_job(id),
        shell.job(id).state is Running || shell.job(id).state is Stopped,
    ensures
        continued(shell, id).agrees(),
{
    lemma_resume_agrees(shell.job(id));
}

/// A report for a process that no job owns leaves the shell as it was.
pub proof fn lemma_unknown_process_ignored(shell: ShellView, event: WaitEvent)
    requires
        report_of(event) matches Some((pid, _)) ==> !shell.tracks(pid),
    ensures
        reaped(shell, event) == shell,
{
}

} // verus!
