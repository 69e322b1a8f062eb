//! Processes and jobs: the state of each stage of a pipeline, and the
//! aggregate state that a job derives from its stages.

use vstd::prelude::*;
use crate::text::texts;

verus! {

/// The exit code recorded for a stage that was terminated by a signal.
pub const SIGNALED_CODE: i32 = -1;

/// The exit code recorded for a stage whose program could not be started.
pub const SPAWN_FAILED_CODE: i32 = 127;

/// The state of one process, or the aggregate state of a job.
#[derive(Debug, Clone, Copy, PartialEq, Eq, Structural, Hash)]
pub enum ProcessStatus {
    Running,
    Exited(i32),
    Stopped,
    Undef,
}

/// Where a standard stream of a stage comes from or goes to.
#[derive(Debug, PartialEq, Hash)]
pub enum Redirection {
    /// The stream of the shell itself.
    Normal,
    /// The adjacent stage of the pipeline.
    Pipe,
    /// A file, by path; the flag asks to append rather than truncate.
    File((String, bool)),
    /// Reserved for duplicating a descriptor.
    Redir(String),
}

/// The mathematical value of a [`Redirection`].
pub enum RedirectionView {
    Normal,
    Pipe,
    File(Seq<char>, bool),
    Redir(Seq<char>),
}

impl View for Redirection {
    type V = RedirectionView;

    open spec fn view(&self) -> RedirectionView {
        match *self {
            Redirection::Normal => RedirectionView::Normal,
            Redirection::Pipe => RedirectionView::Pipe,
            Redirection::File(target) => RedirectionView::File(target.0@, target.1),
            Redirection::Redir(name) => RedirectionView::Redir(name@),
        }
    }
}

impl Clone for Redirection {
    fn clone(&self) -> (r: Self)
        ensures
            r == *self,
    {
        match self {
            Redirection::Normal => Redirection::Normal,
            Redirection::Pipe => Redirection::Pipe,
            Redirection::File(target) => Redirection::File((target.0.clone(), target.1)),
            Redirection::Redir(name) => Redirection::Redir(name.clone()),
        }
    }
}

/// One stage of a pipeline: what to run, how its streams are connected,
/// and what is known of the process that runs it.
#[derive(Debug)]
pub struct Process {
    pub cmd: String,
    pub args: Vec<String>,
    pub stdin_redir: Redirection,
    pub stdout_redir: Redirection,
    pub status: ProcessStatus,
    /// The process id, once the stage has been started.
    pub process: Option<i32>,
}

/// The mathematical value of a [`Process`].
pub struct ProcessView {
    pub cmd: Seq<char>,
    pub args: Seq<Seq<char>>,
    pub stdin_redir: RedirectionView,
    pub stdout_redir: RedirectionView,
    pub status: ProcessStatus,
    pub process: Option<i32>,
}

impl ProcessView {
    /// This stage with another status.
    pub open spec fn with_status(self, status: ProcessStatus) -> ProcessView {
        ProcessView { status, ..self }
    }
}

impl View for Process {
    type V = ProcessView;

    open spec fn view(&self) -> ProcessView {
        ProcessView {
            cmd: self.cmd@,
            args: texts(self.args@),
            stdin_redir: self.stdin_redir@,
            stdout_redir: self.stdout_redir@,
            status: self.status,
            process: self.process,
        }
    }
}

impl Process {
    /// A stage that has not been started.
    pub fn new(
        cmd: String,
        args: Vec<String>,
        stdin_redir: Redirection,
        stdout_redir: Redirection,
    ) -> (r: Process)
        ensures
            r@ == (ProcessView {
                cmd: cmd@,
                args: texts(args@),
                stdin_redir: stdin_redir@,
                stdout_redir: stdout_redir@,
                status: ProcessStatus::Undef,
                process: None,
            }),
    {
        Process {
            cmd,
            args,
            stdin_redir,
            stdout_redir,
            status: ProcessStatus::Undef,
            process: None,
        }
    }

    /// The id of the process that runs this stage.
    pub fn pid(&self) -> (r: i32)
        requires
            self.process is Some,
        ensures
            Some(r) == self.process,
    {
        match self.process {
            Some(pid) => pid,
            None => 0,
        }
    }

    /// Records the process that runs this stage.
    pub fn set_process(&mut self, process: i32)
        ensures
            final(self)@ == (ProcessView { process: Some(process), ..old(self)@ }),
    {
        self.process = Some(process);
    }
}

/// Where a stage that is about to start reads its standard input from.
#[derive(Debug, PartialEq)]
pub enum Source {
    /// The input stream of the shell.
    Inherit,
    /// The read end of the pipe that the previous stage writes to.
    Upstream,
    /// A file, opened for reading.
    File(String),
    /// Nothing: the stage before it never started, so no pipe exists.
    Nothing,
}

/// The mathematical value of a [`Source`].
pub enum SourceView {
    Inherit,
    Upstream,
    File(Seq<char>),
    Nothing,
}

impl View for Source {
    type V = SourceView;

    open spec fn view(&self) -> SourceView {
        match *self {
            Source::Inherit => SourceView::Inherit,
            Source::Upstream => SourceView::Upstream,
            Source::File(path) => SourceView::File(path@),
            Source::Nothing => SourceView::Nothing,
        }
    }
}

/// Where a stage that is about to start writes its standard output to.
#[derive(Debug, PartialEq)]
pub enum Sink {
    /// The output stream of the shell.
    Inherit,
    /// A new pipe, whose read end is kept for the next stage.
    Downstream,
    /// A file, created if missing; truncated unless the flag asks to append.
    File(String, bool),
}

/// The mathematical value of a [`Sink`].
pub enum SinkView {
    Inherit,
    Downstream,
    File(Seq<char>, bool),
}

impl View for Sink {
    type V = SinkView;

    open spec fn view(&self) -> SinkView {
        match *self {
            Sink::Inherit => SinkView::Inherit,
            Sink::Downstream => SinkView::Downstream,
            Sink::File(path, append) => SinkView::File(path@, append),
        }
    }
}

/// Everything needed to start one stage of a pipeline.
#[derive(Debug, PartialEq)]
pub struct SpawnPlan {
    pub cmd: String,
    pub args: Vec<String>,
    /// The process group to start the stage in: `None` leaves it in the
    /// group of the shell, `Some(0)` opens a new group led by the stage,
    /// and any other id joins that group.
    pub group: Option<i32>,
    pub stdin: Source,
    pub stdout: Sink,
}

/// The mathematical value of a [`SpawnPlan`].
pub struct SpawnPlanView {
    pub cmd: Seq<char>,
    pub args: Seq<Seq<char>>,
    pub group: Option<i32>,
    pub stdin: SourceView,
    pub stdout: SinkView,
}

impl View for SpawnPlan {
    type V = SpawnPlanView;

    open spec fn view(&self) -> SpawnPlanView {
        SpawnPlanView {
            cmd: self.cmd@,
            args: texts(self.args@),
            group: self.group,
            stdin: self.stdin@,
            stdout: self.stdout@,
        }
    }
}

/// What happened to the stage that was last handed out to be started.
#[derive(Debug, Clone, Copy, PartialEq, Eq, Structural)]
pub enum SpawnEvent {
    /// Nothing yet: the launch begins.
    Begin,
    /// The stage runs, as the process with this id.
    Started(i32),
    /// The program could not be started.
    Failed,
}

/// One command line's pipeline, tracked as a unit.
#[derive(Debug)]
pub struct Job {
    id: u32,
    state: ProcessStatus,
    pipeline: String,
    processes: Vec<Process>,
    pgid: i32,
}

/// The mathematical value of a [`Job`].
pub struct JobView {
    pub id: u32,
    pub state: ProcessStatus,
    pub pipeline: Seq<char>,
    pub processes: Seq<ProcessView>,
    pub pgid: i32,
}

/// The views of a sequence of stages.
pub open spec fn stages(items: Seq<Process>) -> Seq<ProcessView> {
    items.map_values(|item: Process| item@)
}

/// Whether every stage has exited.
pub open spec fn all_exited(stages: Seq<ProcessView>) -> bool {
    forall|i: int| 0 <= i < stages.len() ==> (#[trigger] stages[i]).status is Exited
}

/// Whether every stage is stopped.
pub open spec fn all_stopped(stages: Seq<ProcessView>) -> bool {
    forall|i: int| 0 <= i < stages.len() ==> (#[trigger] stages[i]).status is Stopped
}

/// The exit code of a pipeline whose stages have all exited: that of its
/// last stage, and 0 for a pipeline without stages.
pub open spec fn pipeline_code(stages: Seq<ProcessView>) -> i32 {
    if stages.len() == 0 {
        0
    } else {
        match stages.last().status {
            ProcessStatus::Exited(code) => code,
            _ => 0,
        }
    }
}

/// Whether `i` is the first stage that runs as process `pid`.
pub open spec fn is_stage_of(stages: Seq<ProcessView>, pid: i32, i: int) -> bool {
    &&& 0 <= i < stages.len()
    &&& stages[i].process == Some(pid)
    &&& forall|j: int| 0 <= j < i ==> (#[trigger] stages[j]).process != Some(pid)
}

/// Whether some stage runs as process `pid`.
pub open spec fn owns(stages: Seq<ProcessView>, pid: i32) -> bool {
    exists|i: int| 0 <= i < stages.len() && (#[trigger] stages[i]).process == Some(pid)
}

/// The first stage that runs as process `pid`.
pub open spec fn stage_of(stages: Seq<ProcessView>, pid: i32) -> int {
    choose|i: int| is_stage_of(stages, pid, i)
}

/// The aggregate state after a stage has taken `status`: the job stops
/// when that leaves every stage stopped, exits when it leaves every stage
/// exited, and keeps its state on any other mixture.
pub open spec fn aggregate(
    state: ProcessStatus,
    stages: Seq<ProcessView>,
    status: ProcessStatus,
) -> ProcessStatus {
    match status {
        ProcessStatus::Stopped => if all_stopped(stages) {
            ProcessStatus::Stopped
        } else {
            state
        },
        ProcessStatus::Exited(_) => if all_exited(stages) {
            ProcessStatus::Exited(pipeline_code(stages))
        } else {
            state
        },
        _ => state,
    }
}

/// Whether `i` is the first stage that has not been started, or the
/// number of stages where every stage has been.
pub open spec fn is_next_stage(stages: Seq<ProcessView>, i: int) -> bool {
    &&& 0 <= i <= stages.len()
    &&& i < stages.len() ==> stages[i].status is Undef
    &&& forall|j: int| 0 <= j < i ==> !((#[trigger] stages[j]).status is Undef)
}

/// The first stage that has not been started, or the number of stages
/// where every stage has been.
pub open spec fn next_stage(stages: Seq<ProcessView>) -> int {
    choose|i: int| is_next_stage(stages, i)
}

/// How stage `i` reads its input: a pipe only where the stage before it
/// writes to one and was started.
pub open spec fn source_of(stages: Seq<ProcessView>, i: int) -> SourceView {
    match stages[i].stdin_redir {
        RedirectionView::Pipe => if i > 0 && stages[i - 1].stdout_redir is Pipe
            && stages[i - 1].process is Some {
            SourceView::Upstream
        } else {
            SourceView::Nothing
        },
        RedirectionView::File(path, _) => SourceView::File(path),
        _ => SourceView::Inherit,
    }
}

/// How a stage writes its output.
pub open spec fn sink_of(stage: ProcessView) -> SinkView {
    match stage.stdout_redir {
        RedirectionView::Pipe => SinkView::Downstream,
        RedirectionView::File(path, append) => SinkView::File(path, append),
        _ => SinkView::Inherit,
    }
}

impl JobView {
    /// Whether some stage of this job runs as process `pid`.
    pub open spec fn owns(self, pid: i32) -> bool {
        owns(self.processes, pid)
    }

    /// This job after process `pid` has been reported with `status`. A
    /// report for a process that the job does not own changes nothing.
    pub open spec fn updated(self, pid: i32, status: ProcessStatus) -> JobView {
        if self.owns(pid) {
            let i = stage_of(self.processes, pid);
            let processes = self.processes.update(i, self.processes[i].with_status(status));
            JobView { processes, state: aggregate(self.state, processes, status), ..self }
        } else {
            self
        }
    }

    /// What holds of every job: the process group id is not negative.
    pub open spec fn wf(self) -> bool {
        self.pgid >= 0
    }

    /// Whether the aggregate state agrees with the stages: a job that has
    /// exited has only exited stages, a job that runs or is stopped has a
    /// stage that has not exited, and a job that runs has a stage that is
    /// not stopped.
    pub open spec fn agrees(self) -> bool {
        &&& self.state is Exited ==> all_exited(self.processes)
        &&& self.state is Running || self.state is Stopped ==> !all_exited(self.processes)
        &&& self.state is Running ==> !all_stopped(self.processes)
    }

    /// Whether no stage is stopped.
    pub open spec fn none_stopped(self) -> bool {
        forall|i: int|
            0 <= i < self.processes.len() ==> !((#[trigger] self.processes[i]).status is Stopped)
    }

    /// The plan for starting stage `i`. In an interactive shell the first
    /// stage that starts opens a process group and the later ones join it.
    pub open spec fn plan(self, i: int, interactive: bool) -> SpawnPlanView {
        SpawnPlanView {
            cmd: self.processes[i].cmd,
            args: self.processes[i].args,
            group: if interactive {
                Some(self.pgid)
            } else {
                None
            },
            stdin: source_of(self.processes, i),
            stdout: sink_of(self.processes[i]),
        }
    }

    /// This job after the attempt to start stage `i` has ended as `event`
    /// says. A stage that started runs; in an interactive shell the first
    /// one gives the job its process group. A stage that did not start
    /// counts as exited, with [`SPAWN_FAILED_CODE`].
    pub open spec fn spawned(self, i: int, event: SpawnEvent, interactive: bool) -> JobView {
        match event {
            SpawnEvent::Begin => self,
            SpawnEvent::Started(pid) => JobView {
                processes: self.processes.update(
                    i,
                    ProcessView {
                        status: ProcessStatus::Running,
                        process: Some(pid),
                        ..self.processes[i]
                    },
                ),
                pgid: if interactive && self.pgid == 0 {
                    pid
                } else {
                    self.pgid
                },
                ..self
            },
            SpawnEvent::Failed => JobView {
                processes: self.processes.update(
                    i,
                    self.processes[i].with_status(ProcessStatus::Exited(SPAWN_FAILED_CODE)),
                ),
                ..self
            },
        }
    }

    /// This job once every stage has been attempted: it runs, unless no
    /// stage is left that has not exited.
    pub open spec fn launched(self) -> JobView {
        JobView {
            state: if all_exited(self.processes) {
                ProcessStatus::Exited(pipeline_code(self.processes))
            } else {
                ProcessStatus::Running
            },
            ..self
        }
    }

    /// One step of the launch: `event` is recorded for the first stage
    /// that has not been started, and the launch ends when no such stage
    /// is left.
    pub open spec fn launch_step(self, event: SpawnEvent, interactive: bool) -> JobView {
        let recorded = self.spawned(next_stage(self.processes), event, interactive);
        if next_stage(recorded.processes) == recorded.processes.len() {
            recorded.launched()
        } else {
            recorded
        }
    }

    /// This job after it has been told to continue: every stopped stage
    /// runs again, and so does the job.
    pub open spec fn resumed(self) -> JobView {
        JobView {
            processes: self.processes.map_values(
                |stage: ProcessView|
                    if stage.status is Stopped {
                        stage.with_status(ProcessStatus::Running)
                    } else {
                        stage
                    },
            ),
            state: ProcessStatus::Running,
            ..self
        }
    }

    /// Whether the aggregate state is `Exited`.
    pub open spec fn completed(self) -> bool {
        self.state is Exited
    }

    /// Whether the aggregate state is `Stopped`.
    pub open spec fn stopped(self) -> bool {
        self.state is Stopped
    }
}

impl View for Job {
    type V = JobView;

    closed spec fn view(&self) -> JobView {
        JobView {
            id: self.id,
            state: self.state,
            pipeline: self.pipeline@,
            processes: stages(self.processes@),
            pgid: self.pgid,
        }
    }
}

/// The first stage that runs as `pid` is the only index that
/// [`is_stage_of`] accepts.
pub proof fn lemma_stage_of(stages: Seq<ProcessView>, pid: i32, i: int)
    requires
        is_stage_of(stages, pid, i),
    ensures
        owns(stages, pid),
        stage_of(stages, pid) == i,
{
}

/// The index that [`is_next_stage`] accepts is the one that
/// [`next_stage`] names.
pub proof fn lemma_next_stage(stages: Seq<ProcessView>, i: int)
    requires
        is_next_stage(stages, i),
    ensures
        next_stage(stages) == i,
{
}

/// From any place up to which every stage has been started, there is a
/// first stage that has not been, or none is left.
proof fn lemma_next_stage_from(stages: Seq<ProcessView>, k: int)
    requires
        0 <= k <= stages.len(),
        forall|j: int| 0 <= j < k ==> !((#[trigger] stages[j]).status is Undef),
    ensures
        exists|i: int| is_next_stage(stages, i),
    decreases stages.len() - k,
{
    if k < stages.len() && !(stages[k].status is Undef) {
        lemma_next_stage_from(stages, k + 1);
    } else {
        assert(is_next_stage(stages, k));
    }
}

/// [`next_stage`] names the first stage that has not been started, or the
/// number of stages.
pub proof fn lemma_has_next_stage(stages: Seq<ProcessView>)
    ensures
        is_next_stage(stages, next_stage(stages)),
{
    lemma_next_stage_from(stages, 0);
}

/// Below any stage that runs as `pid` there is a first one.
proof fn lemma_first_stage(stages: Seq<ProcessView>, pid: i32, k: int)
    requires
        0 <= k < stages.len(),
        stages[k].process == Some(pid),
    ensures
        exists|i: int| is_stage_of(stages, pid, i),
    decreases k,
{
    if exists|j: int| 0 <= j < k && (#[trigger] stages[j]).process == Some(pid) {
        let j = choose|j: int| 0 <= j < k && (#[trigger] stages[j]).process == Some(pid);
        lemma_first_stage(stages, pid, j);
    } else {
        assert(is_stage_of(stages, pid, k));
    }
}

/// Where some stage runs as `pid`, [`stage_of`] names the first that does.
pub proof fn lemma_owned_stage(stages: Seq<ProcessView>, pid: i32)
    requires
        owns(stages, pid),
    ensures
        is_stage_of(stages, pid, stage_of(stages, pid)),
{
    let k = choose|i: int| 0 <= i < stages.len() && (#[trigger] stages[i]).process == Some(pid);
    lemma_first_stage(stages, pid, k);
}

/// Once every stage has been attempted, the job has exited if and only if
/// every stage has; and the aggregate state agrees with the stages,
/// unless a stage was stopped before the launch was over.
pub proof fn lemma_launched_agrees(job: JobView)
    ensures
        job.launched().completed() <==> all_exited(job.launched().processes),
        job.none_stopped() ==> job.launched().agrees(),
{
    if job.none_stopped() && !all_exited(job.processes) {
        let k = choose|k: int|
            0 <= k < job.processes.len() && !((#[trigger] job.processes[k]).status is Exited);
        assert(!(job.processes[k].status is Stopped));
    }
}

/// A report keeps the aggregate state in agreement with the stages: once
/// the launch is over, the job has exited if and only if every stage has
/// exited. The one report that breaks the agreement is left out: one that
/// gives a stage of a job that has exited a status other than an exit.
pub proof fn lemma_update_agrees(job: JobView, pid: i32, status: ProcessStatus)
    requires
        job.agrees(),
        !(job.completed() && job.owns(pid) && !(status is Exited)),
    ensures
        job.updated(pid, status).agrees(),
{
    let after = job.updated(pid, status);
    if job.owns(pid) {
        let i = stage_of(job.processes, pid);
        lemma_owned_stage(job.processes, pid);
        assert(after.processes[i].status == status);
    }
}

/// A report changes the aggregate state only by agreement of the stages:
/// the job takes the state `Exited` only where every stage has exited,
/// and `Stopped` only where every stage is stopped. A report of an exit
/// that leaves every stage exited makes the job exited, a report of a
/// stop that leaves every stage stopped makes it stopped, and where the
/// stages are of neither kind together the aggregate state stays as it
/// was.
pub proof fn lemma_update_aggregate(job: JobView, pid: i32, status: ProcessStatus)
    ensures
        job.updated(pid, status).state != job.state ==> {
            ||| job.updated(pid, status).completed() && all_exited(
                job.updated(pid, status).processes,
            )
            ||| job.updated(pid, status).stopped() && all_stopped(
                job.updated(pid, status).processes,
            )
        },
        job.owns(pid) && status is Exited && all_exited(job.updated(pid, status).processes)
            ==> job.updated(pid, status).completed(),
        job.owns(pid) && status is Stopped && all_stopped(job.updated(pid, status).processes)
            ==> job.updated(pid, status).stopped(),
        !all_exited(job.updated(pid, status).processes) && !all_stopped(
            job.updated(pid, status).processes,
        ) ==> job.updated(pid, status).state == job.state,
{
}

/// Telling a job that has not exited to continue keeps the aggregate
/// state in agreement with the stages.
pub proof fn lemma_resume_agrees(job: JobView)
    requires
        job.agrees(),
        job.state is Running || job.state is Stopped,
    ensures
        job.resumed().agrees(),
{
    let k = choose|k: int|
        0 <= k < job.processes.len() && !((#[trigger] job.processes[k]).status is Exited);
    assert(!(job.resumed().processes[k].status is Exited));
}

/// A step of the launch keeps the aggregate state in agreement with the
/// stages: while the launch goes on the state is undefined, and at its
/// end the job has exited if and only if every stage has. Left out is a
/// job of which a stage is stopped before the launch is over.
pub proof fn lemma_launch_step_agrees(job: JobView, event: SpawnEvent, interactive: bool)
    requires
        job.state is Undef,
        job.none_stopped(),
        !(event is Begin) ==> next_stage(job.processes) < job.processes.len(),
    ensures
        job.launch_step(event, interactive).agrees(),
        job.launch_step(event, interactive).none_stopped(),
{
    let i = next_stage(job.processes);
    let recorded = job.spawned(i, event, interactive);
    lemma_has_next_stage(job.processes);
    assert forall|k: int| 0 <= k < recorded.processes.len() implies !((
    #[trigger] recorded.processes[k]).status is Stopped) by {
        if k != i {
            assert(recorded.processes[k] == job.processes[k]);
        }
    }
    lemma_launched_agrees(recorded);
}

/// A report that is delivered twice changes nothing the second time.
pub proof fn lemma_update_idempotent(job: JobView, pid: i32, status: ProcessStatus)
    ensures
        job.updated(pid, status).updated(pid, status) == job.updated(pid, status),
{
    let once = job.updated(pid, status);
    if job.owns(pid) {
        let i = stage_of(job.processes, pid);
        lemma_owned_stage(job.processes, pid);
        assert(is_stage_of(once.processes, pid, i));
        assert(once.processes.update(i, once.processes[i].with_status(status))
            =~= once.processes);
    }
}

/// A report keeps the identity of the job, and the number of its stages.
pub proof fn lemma_update_keeps_identity(job: JobView, pid: i32, status: ProcessStatus)
    ensures
        job.updated(pid, status).id == job.id,
        job.updated(pid, status).pgid == job.pgid,
        job.updated(pid, status).pipeline == job.pipeline,
        job.updated(pid, status).processes.len() == job.processes.len(),
        job.updated(pid, status).wf() == job.wf(),
{
    if job.owns(pid) {
        lemma_owned_stage(job.processes, pid);
    }
}

impl Job {
    /// A job without stages, not yet started.
    pub fn new(id: u32, pipeline: &str) -> (r: Job)
        ensures
            r@ == (JobView {
                id,
                state: ProcessStatus::Undef,
                pipeline: pipeline@,
                processes: Seq::empty(),
                pgid: 0,
            }),
    {
        let r = Job {
            id,
            state: ProcessStatus::Undef,
            pipeline: pipeline.to_owned(),
            processes: Vec::new(),
            pgid: 0,
        };
        assert(r@.processes =~= Seq::empty());
        r
    }

    pub fn id(&self) -> (r: u32)
        ensures
            r == self@.id,
    {
        self.id
    }

    pub fn pgid(&self) -> (r: i32)
        ensures
            r == self@.pgid,
    {
        self.pgid
    }

    pub fn pipeline(&self) -> (r: &str)
        ensures
            r@ == self@.pipeline,
    {
        self.pipeline.as_str()
    }

    pub fn state(&self) -> (r: ProcessStatus)
        ensures
            r == self@.state,
    {
        self.state
    }

    /// Whether the job has exited.
    pub fn completed(&self) -> (r: bool)
        ensures
            r == self@.completed(),
    {
        match self.state {
            ProcessStatus::Exited(_) => true,
            _ => false,
        }
    }

    /// Whether the job is stopped.
    pub fn stopped(&self) -> (r: bool)
        ensures
            r == self@.stopped(),
    {
        match self.state {
            ProcessStatus::Stopped => true,
            _ => false,
        }
    }

    /// Appends a stage to the pipeline. Stages are added before the launch
    /// of the job is over.
    pub fn add_process(&mut self, process: Process)
        requires
            old(self)@.state is Undef,
        ensures
            final(self)@ == (JobView {
                processes: old(self)@.processes.push(process@),
                ..old(self)@
            }),
    {
        self.processes.push(process);
        assert(final(self)@.processes =~= old(self)@.processes.push(process@));
    }

    /// The first stage that runs as process `pid`, if there is one.
    pub fn find_stage(&self, pid: i32) -> (r: Option<usize>)
        ensures
            match r {
                Some(i) => is_stage_of(self@.processes, pid, i as int),
                None => !self@.owns(pid),
            },
    {
        let n = self.processes.len();
        let mut i: usize = 0;
        while i < n
            invariant
                n == self.processes.len(),
                i <= n,
                forall|j: int| 0 <= j < i ==> (#[trigger] self@.processes[j]).process != Some(pid),
            decreases n - i,
        {
            match self.processes[i].process {
                Some(p) => {
                    if p == pid {
                        return Some(i);
                    }
                },
                None => {},
            }
            i += 1;
        }
        None
    }

    /// Whether every stage has exited.
    pub fn all_exited(&self) -> (r: bool)
        ensures
            r == all_exited(self@.processes),
    {
        let n = self.processes.len();
        let mut i: usize = 0;
        while i < n
            invariant
                n == self.processes.len(),
                i <= n,
                forall|j: int| 0 <= j < i ==> (#[trigger] self@.processes[j]).status is Exited,
            decreases n - i,
        {
            match self.processes[i].status {
                ProcessStatus::Exited(_) => {},
                _ => {
                    assert(!(self@.processes[i as int].status is Exited));
                    return false;
                },
            }
            i += 1;
        }
        true
    }

    /// Whether every stage is stopped.
    pub fn all_stopped(&self) -> (r: bool)
        ensures
            r == all_stopped(self@.processes),
    {
        let n = self.processes.len();
        let mut i: usize = 0;
        while i < n
            invariant
                n == self.processes.len(),
                i <= n,
                forall|j: int| 0 <= j < i ==> (#[trigger] self@.processes[j]).status is Stopped,
            decreases n - i,
        {
            match self.processes[i].status {
                ProcessStatus::Stopped => {},
                _ => {
                    assert(!(self@.processes[i as int].status is Stopped));
                    return false;
                },
            }
            i += 1;
        }
        true
    }

    /// The exit code that the pipeline reports once every stage has
    /// exited.
    pub fn pipeline_code(&self) -> (r: i32)
        ensures
            r == pipeline_code(self@.processes),
    {
        let n = self.processes.len();
        if n == 0 {
            0
        } else {
            match self.processes[n - 1].status {
                ProcessStatus::Exited(code) => code,
                _ => 0,
            }
        }
    }

    /// The stages of the pipeline, in order.
    pub fn processes(&self) -> (r: &Vec<Process>)
        ensures
            stages(r@) == self@.processes,
    {
        &self.processes
    }

    /// The first stage that has not been started, or the number of stages
    /// where every stage has been.
    pub fn next_stage(&self) -> (r: usize)
        ensures
            is_next_stage(self@.processes, r as int),
            r == next_stage(self@.processes),
    {
        let n = self.processes.len();
        let mut i: usize = 0;
        while i < n
            invariant
                n == self.processes.len(),
                i <= n,
                forall|j: int| 0 <= j < i ==> !((#[trigger] self@.processes[j]).status is Undef),
            decreases n - i,
        {
            match self.processes[i].status {
                ProcessStatus::Undef => {
                    proof {
                        lemma_next_stage(self@.processes, i as int);
                    }
                    return i;
                },
                _ => {},
            }
            i += 1;
        }
        proof {
            lemma_next_stage(self@.processes, n as int);
        }
        n
    }

    /// The plan for starting stage `i`.
    pub fn plan(&self, i: usize, interactive: bool) -> (r: SpawnPlan)
        requires
            i < self@.processes.len(),
        ensures
            r@ == self@.plan(i as int, interactive),
    {
        let stage = &self.processes[i];
        let stdin = match &stage.stdin_redir {
            Redirection::Pipe => {
                let fed = if i > 0 {
                    let before = &self.processes[i - 1];
                    let writes = match &before.stdout_redir {
                        Redirection::Pipe => true,
                        _ => false,
                    };
                    writes && before.process.is_some()
                } else {
                    false
                };
                if fed {
                    Source::Upstream
                } else {
                    Source::Nothing
                }
            },
            Redirection::File(target) => Source::File(target.0.clone()),
            _ => Source::Inherit,
        };
        let stdout = match &stage.stdout_redir {
            Redirection::Pipe => Sink::Downstream,
            Redirection::File(target) => Sink::File(target.0.clone(), target.1),
            _ => Sink::Inherit,
        };
        let group = if interactive {
            Some(self.pgid)
        } else {
            None
        };
        SpawnPlan { cmd: stage.cmd.clone(), args: stage.args.clone(), group, stdin, stdout }
    }

    /// One step of starting the pipeline, stage by stage. The caller begins
    /// with [`SpawnEvent::Begin`], starts the stage that each returned plan
    /// describes, and reports how that went with the next call; `None`
    /// says that every stage has been attempted and the launch is over.
    pub fn exec(&mut self, interactive: bool, event: SpawnEvent) -> (r: Option<SpawnPlan>)
        requires
            old(self)@.wf(),
            old(self)@.state is Undef,
            !(event is Begin) ==> next_stage(old(self)@.processes) < old(self)@.processes.len(),
            event matches SpawnEvent::Started(pid) ==> pid > 0,
        ensures
            final(self)@ == old(self)@.launch_step(event, interactive),
            final(self)@.wf(),
            match r {
                Some(plan) => {
                    &&& final(self)@.state is Undef
                    &&& next_stage(final(self)@.processes) < final(self)@.processes.len()
                    &&& plan@ == final(self)@.plan(
                        next_stage(final(self)@.processes),
                        interactive,
                    )
                },
                None => next_stage(final(self)@.processes) == final(self)@.processes.len(),
            },
    {
        let i = self.next_stage();
        match event {
            SpawnEvent::Begin => {},
            SpawnEvent::Started(pid) => {
                self.processes[i].status = ProcessStatus::Running;
                self.processes[i].process = Some(pid);
                if interactive && self.pgid == 0 {
                    self.pgid = pid;
                }
            },
            SpawnEvent::Failed => {
                self.processes[i].status = ProcessStatus::Exited(SPAWN_FAILED_CODE);
            },
        }
        assert(self@ == old(self)@.spawned(i as int, event, interactive)) by {
            assert(self@.processes =~= old(self)@.spawned(
                i as int,
                event,
                interactive,
            ).processes);
        }
        let next = self.next_stage();
        if next == self.processes.len() {
            if self.all_exited() {
                self.state = ProcessStatus::Exited(self.pipeline_code());
            } else {
                self.state = ProcessStatus::Running;
            }
            None
        } else {
            Some(self.plan(next, interactive))
        }
    }

    /// Marks every stopped stage, and the job, as running again.
    pub fn resume(&mut self)
        ensures
            final(self)@ == old(self)@.resumed(),
    {
        let n = self.processes.len();
        let mut i: usize = 0;
        while i < n
            invariant
                n == self.processes.len(),
                i <= n,
                self@.processes.len() == old(self)@.processes.len(),
                forall|j: int|
                    0 <= j < i ==> (#[trigger] self@.processes[j]) == old(
                        self,
                    )@.resumed().processes[j],
                forall|j: int|
                    i <= j < n ==> (#[trigger] self@.processes[j]) == old(self)@.processes[j],
                self@.id == old(self)@.id,
                self@.pipeline == old(self)@.pipeline,
                self@.pgid == old(self)@.pgid,
            decreases n - i,
        {
            let ghost before = self@.processes;
            match self.processes[i].status {
                ProcessStatus::Stopped => {
                    self.processes[i].status = ProcessStatus::Running;
                },
                _ => {},
            }
            proof {
                assert(before[i as int] == old(self)@.processes[i as int]);
                assert forall|j: int| 0 <= j < n && j != i implies (#[trigger] self@.processes[j])
                    == before[j] by {}
            }
            i += 1;
        }
        self.state = ProcessStatus::Running;
        assert(self@.processes =~= old(self)@.resumed().processes);
    }

    /// Records that process `pid` has taken `state`, and derives the
    /// aggregate state anew.
    pub fn update_process_state(&mut self, pid: i32, state: ProcessStatus)
        ensures
            final(self)@ == old(self)@.updated(pid, state),
    {
        let i = match self.find_stage(pid) {
            Some(i) => i,
            None => {
                return;
            },
        };
        self.processes[i].status = state;
        assert(self@.processes =~= old(self)@.processes.update(
            i as int,
            old(self)@.processes[i as int].with_status(state),
        ));
        match state {
            ProcessStatus::Stopped => {
                if self.all_stopped() {
                    self.state = ProcessStatus::Stopped;
                }
            },
            ProcessStatus::Exited(_) => {
                if self.all_exited() {
                    self.state = ProcessStatus::Exited(self.pipeline_code());
                }
            },
            _ => {},
        }
    }
}

} // verus!
