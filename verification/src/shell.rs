//! The shell context: the table of live jobs, the background set, the
//! aliases and the variables.

use std::collections::HashSet;
use vstd::prelude::*;
use crate::process::{
    lemma_launch_step_agrees, lemma_update_agrees, lemma_update_keeps_identity, next_stage, Job,
    JobView, Process, ProcessStatus, ProcessView, Redirection, SpawnEvent, SpawnPlan,
};
use crate::sys::current_pid;
use crate::table::Table;
use crate::text::texts;
use crate::variable::{Store, Value, Variables};

verus! {

/// What an alias stands for: a command and its arguments.
pub type AliasView = (Seq<char>, Seq<Seq<char>>);

/// The view of what an alias stands for.
pub open spec fn alias_view(alias: (String, Vec<String>)) -> AliasView {
    (alias.0@, texts(alias.1@))
}

/// The state of the shell.
#[derive(Debug)]
pub struct Shell {
    pgid: i32,
    interactive: bool,
    global_values: Variables,
    aliases: Table<(String, Vec<String>)>,
    jobs: Vec<Job>,
    bg_jobs: HashSet<u32>,
    next_job_id: u32,
}

/// The mathematical value of a [`Shell`]. The jobs stand in the order in
/// which they were created.
pub struct ShellView {
    pub pgid: i32,
    pub interactive: bool,
    pub variables: Store,
    pub aliases: Map<Seq<char>, AliasView>,
    pub jobs: Seq<JobView>,
    pub background: Set<u32>,
    pub next_job_id: u32,
}

/// The stages that a job is created with: stage `i` runs `cmds[i]` with
/// `args[i]`, reads as `stdin_redir[i]` says and writes as
/// `stdout_redir[i]` says, and has not been started.
pub open spec fn new_stages(
    cmds: Seq<String>,
    args: Seq<Vec<String>>,
    stdin_redir: Seq<Redirection>,
    stdout_redir: Seq<Redirection>,
) -> Seq<ProcessView> {
    Seq::new(
        cmds.len(),
        |i: int|
            ProcessView {
                cmd: cmds[i]@,
                args: texts(args[i]@),
                stdin_redir: stdin_redir[i]@,
                stdout_redir: stdout_redir[i]@,
                status: ProcessStatus::Undef,
                process: None,
            },
    )
}

impl ShellView {
    /// What holds of every shell: the jobs stand in the order of their
    /// ids, which are below the next id to be given out, and each job is
    /// well formed.
    pub open spec fn wf(self) -> bool {
        &&& forall|i: int|
            0 <= i < self.jobs.len() ==> (#[trigger] self.jobs[i]).wf() && self.jobs[i].id
                < self.next_job_id
        &&& forall|i: int, j: int|
            0 <= i < j < self.jobs.len() ==> (#[trigger] self.jobs[i]).id < (
            #[trigger] self.jobs[j]).id
    }

    /// Whether the aggregate state of every job agrees with its stages;
    /// see [`JobView::agrees`].
    pub open spec fn agrees(self) -> bool {
        forall|i: int| 0 <= i < self.jobs.len() ==> (#[trigger] self.jobs[i]).agrees()
    }

    /// Whether the table holds a job with this id.
    pub open spec fn has_job(self, id: u32) -> bool {
        exists|i: int| 0 <= i < self.jobs.len() && (#[trigger] self.jobs[i]).id == id
    }

    /// The place in the table of the job with this id.
    pub open spec fn slot(self, id: u32) -> int {
        choose|i: int| 0 <= i < self.jobs.len() && (#[trigger] self.jobs[i]).id == id
    }

    /// The job with this id.
    pub open spec fn job(self, id: u32) -> JobView {
        self.jobs[self.slot(id)]
    }

    /// Whether some job owns process `pid`.
    pub open spec fn tracks(self, pid: i32) -> bool {
        exists|i: int| 0 <= i < self.jobs.len() && (#[trigger] self.jobs[i]).owns(pid)
    }

    /// Whether the job at `i` is the first that owns process `pid`.
    pub open spec fn is_owner(self, pid: i32, i: int) -> bool {
        &&& 0 <= i < self.jobs.len()
        &&& self.jobs[i].owns(pid)
        &&& forall|j: int| 0 <= j < i ==> !(#[trigger] self.jobs[j]).owns(pid)
    }

    /// The place of the first job that owns process `pid`.
    pub open spec fn owner(self, pid: i32) -> int {
        choose|i: int| self.is_owner(pid, i)
    }

    /// This shell with `job` in the place of the job with this id.
    pub open spec fn with_job(self, id: u32, job: JobView) -> ShellView {
        ShellView { jobs: self.jobs.update(self.slot(id), job), ..self }
    }

    /// This shell after process `pid` has been reported with `status`: the
    /// first job that owns the process records it, and a report for a
    /// process of no job changes nothing.
    pub open spec fn notified(self, pid: i32, status: ProcessStatus) -> ShellView {
        if self.tracks(pid) {
            let i = self.owner(pid);
            ShellView { jobs: self.jobs.update(i, self.jobs[i].updated(pid, status)), ..self }
        } else {
            self
        }
    }

    /// This shell without the job with this id in its table.
    pub open spec fn without_job(self, id: u32) -> ShellView {
        if self.has_job(id) {
            ShellView { jobs: self.jobs.remove(self.slot(id)), ..self }
        } else {
            self
        }
    }

    /// This shell after the job with this id has been deleted: it is in
    /// neither the background set nor the table.
    pub open spec fn deleted(self, id: u32) -> ShellView {
        ShellView { background: self.background.remove(id), ..self.without_job(id) }
    }

    /// This shell with a new job, which takes the next id.
    pub open spec fn created(self, cmdline: Seq<char>, stages: Seq<ProcessView>) -> ShellView {
        ShellView {
            jobs: self.jobs.push(
                JobView {
                    id: self.next_job_id,
                    state: ProcessStatus::Undef,
                    pipeline: cmdline,
                    processes: stages,
                    pgid: 0,
                },
            ),
            next_job_id: (self.next_job_id + 1) as u32,
            ..self
        }
    }
}

/// In a well-formed shell the place that holds a job with an id is the
/// place that [`ShellView::slot`] names.
pub proof fn lemma_slot(shell: ShellView, id: u32, i: int)
    requires
        shell.wf(),
        0 <= i < shell.jobs.len(),
        shell.jobs[i].id == id,
    ensures
        shell.has_job(id),
        shell.slot(id) == i,
        shell.job(id) == shell.jobs[i],
{
}

/// The place that [`ShellView::is_owner`] accepts is the one that
/// [`ShellView::owner`] names.
pub proof fn lemma_owner(shell: ShellView, pid: i32, i: int)
    requires
        shell.is_owner(pid, i),
    ensures
        shell.tracks(pid),
        shell.owner(pid) == i,
{
}

/// Below any job that owns process `pid` there is a first one.
proof fn lemma_first_owner(shell: ShellView, pid: i32, k: int)
    requires
        0 <= k < shell.jobs.len(),
        shell.jobs[k].owns(pid),
    ensures
        exists|i: int| shell.is_owner(pid, i),
    decreases k,
{
    if exists|j: int| 0 <= j < k && (#[trigger] shell.jobs[j]).owns(pid) {
        let j = choose|j: int| 0 <= j < k && (#[trigger] shell.jobs[j]).owns(pid);
        lemma_first_owner(shell, pid, j);
    } else {
        assert(shell.is_owner(pid, k));
    }
}

/// Where some job owns process `pid`, [`ShellView::owner`] names the
/// first that does.
pub proof fn lemma_tracked_owner(shell: ShellView, pid: i32)
    requires
        shell.tracks(pid),
    ensures
        shell.is_owner(pid, shell.owner(pid)),
{
    let k = choose|i: int| 0 <= i < shell.jobs.len() && (#[trigger] shell.jobs[i]).owns(pid);
    lemma_first_owner(shell, pid, k);
}

/// Replacing a job by one with the same id and a process group id that is
/// not negative keeps the shell well formed, and keeps every id where it
/// was.
pub proof fn lemma_with_job(shell: ShellView, i: int, job: JobView)
    requires
        shell.wf(),
        0 <= i < shell.jobs.len(),
        job.id == shell.jobs[i].id,
        job.wf(),
    ensures
        (ShellView { jobs: shell.jobs.update(i, job), ..shell }).wf(),
        forall|id: u32|
            (ShellView { jobs: shell.jobs.update(i, job), ..shell }).has_job(id)
                == #[trigger] shell.has_job(id),
        forall|id: u32| #[trigger]
            shell.has_job(id) ==> (ShellView { jobs: shell.jobs.update(i, job), ..shell }).slot(
                id,
            ) == shell.slot(id),
{
    let after = ShellView { jobs: shell.jobs.update(i, job), ..shell };
    assert forall|id: u32| after.has_job(id) == #[trigger] shell.has_job(id) by {
        if shell.has_job(id) {
            assert(after.jobs[shell.slot(id)].id == id);
        }
    }
}

impl View for Shell {
    type V = ShellView;

    closed spec fn view(&self) -> ShellView {
        ShellView {
            pgid: self.pgid,
            interactive: self.interactive,
            variables: self.global_values@,
            aliases: self.aliases@.map_values(|alias: (String, Vec<String>)| alias_view(alias)),
            jobs: self.jobs@.map_values(|job: Job| job@),
            background: self.bg_jobs@,
            next_job_id: self.next_job_id,
        }
    }
}

impl Shell {
    /// What holds of every shell: its view is well formed, and so are its
    /// tables.
    pub closed spec fn wf(&self) -> bool {
        &&& self@.wf()
        &&& self.global_values.wf()
        &&& self.aliases.wf()
    }

    /// A well-formed shell has a well-formed view.
    pub proof fn lemma_wf(&self)
        requires
            self.wf(),
        ensures
            self@.wf(),
    {
    }

    /// A shell without jobs, aliases or variables, which is not
    /// interactive and gives the id 1 to its first job.
    pub fn new() -> (r: Shell)
        ensures
            r.wf(),
            r@.jobs == Seq::<JobView>::empty(),
            r@.background == Set::<u32>::empty(),
            r@.aliases == Map::<Seq<char>, AliasView>::empty(),
            r@.variables == Store::empty(),
            r@.next_job_id == 1,
            !r@.interactive,
    {
        let r = Shell {
            pgid: current_pid(),
            interactive: false,
            global_values: Variables::new(),
            aliases: Table::new(),
            jobs: Vec::new(),
            bg_jobs: HashSet::new(),
            next_job_id: 1,
        };
        r
    }

    /// The process group of the shell itself.
    pub fn pgid(&self) -> (r: i32)
        ensures
            r == self@.pgid,
    {
        self.pgid
    }

    pub fn set_interactive(&mut self, interactive: bool)
        ensures
            final(self)@ == (ShellView { interactive, ..old(self)@ }),
            final(self).wf() == old(self).wf(),
    {
        self.interactive = interactive;
    }

    pub fn interactive(&self) -> (r: bool)
        ensures
            r == self@.interactive,
    {
        self.interactive
    }

    /// The id that the next job will take.
    pub fn next_job_id(&self) -> (r: u32)
        ensures
            r == self@.next_job_id,
    {
        self.next_job_id
    }

    /// The variables of the shell.
    pub fn variables(&self) -> (r: &Variables)
        ensures
            r@ == self@.variables,
            self.wf() ==> r.wf(),
    {
        &self.global_values
    }

    /// Gives the variable `key` the value `value`.
    pub fn set_variable(&mut self, key: &str, value: Value)
        requires
            old(self).wf(),
        ensures
            final(self).wf(),
            final(self)@ == (ShellView {
                variables: old(self)@.variables.insert(key@, Some(value@)),
                ..old(self)@
            }),
    {
        self.global_values.set(key, value);
    }

    /// Puts the job with this id into the background set.
    pub fn add_background_job(&mut self, job: u32)
        requires
            old(self).wf(),
        ensures
            final(self).wf(),
            final(self)@ == (ShellView {
                background: old(self)@.background.insert(job),
                ..old(self)@
            }),
    {
        self.bg_jobs.insert(job);
    }

    /// Takes the job with this id out of the background set, and says
    /// whether it was in it.
    pub fn remove_background_job(&mut self, job: u32) -> (r: bool)
        requires
            old(self).wf(),
        ensures
            final(self).wf(),
            final(self)@ == (ShellView {
                background: old(self)@.background.remove(job),
                ..old(self)@
            }),
            r == old(self)@.background.contains(job),
    {
        self.bg_jobs.remove(&job)
    }

    /// Whether the job with this id is in the background set.
    pub fn is_background(&self, job: u32) -> (r: bool)
        ensures
            r == self@.background.contains(job),
    {
        self.bg_jobs.contains(&job)
    }

    /// Lets `key` stand for the command and arguments in `value`.
    pub fn set_alias(&mut self, key: &str, value: (String, Vec<String>))
        requires
            old(self).wf(),
        ensures
            final(self).wf(),
            final(self)@ == (ShellView {
                aliases: old(self)@.aliases.insert(key@, alias_view(value)),
                ..old(self)@
            }),
    {
        self.aliases.put(key, value);
        assert(self@.aliases =~= old(self)@.aliases.insert(key@, alias_view(value)));
    }

    /// What `alias` stands for.
    pub fn lookup_alias(&self, alias: &str) -> (r: Option<(String, Vec<String>)>)
        requires
            self.wf(),
        ensures
            match r {
                Some(value) => self@.aliases.contains_key(alias@) && alias_view(value)
                    == self@.aliases[alias@],
                None => !self@.aliases.contains_key(alias@),
            },
    {
        match self.aliases.get(alias) {
            Some(value) => Some((value.0.clone(), value.1.clone())),
            None => None,
        }
    }

    /// The place in the table of the job with this id.
    fn slot_of(&self, job_id: u32) -> (r: Option<usize>)
        requires
            self.wf(),
        ensures
            match r {
                Some(i) => {
                    &&& i < self.jobs@.len()
                    &&& self@.has_job(job_id)
                    &&& self@.slot(job_id) == i
                },
                None => !self@.has_job(job_id),
            },
    {
        let n = self.jobs.len();
        let mut i: usize = 0;
        while i < n
            invariant
                self.wf(),
                n == self.jobs@.len(),
                i <= n,
                forall|j: int| 0 <= j < i ==> (#[trigger] self@.jobs[j]).id != job_id,
            decreases n - i,
        {
            if self.jobs[i].id() == job_id {
                proof {
                    lemma_slot(self@, job_id, i as int);
                }
                return Some(i);
            }
            i += 1;
        }
        None
    }

    /// The job with this id.
    pub fn job(&self, job_id: u32) -> (r: Option<&Job>)
        requires
            self.wf(),
        ensures
            match r {
                Some(job) => self@.has_job(job_id) && job@ == self@.job(job_id),
                None => !self@.has_job(job_id),
            },
    {
        match self.slot_of(job_id) {
            Some(i) => Some(&self.jobs[i]),
            None => None,
        }
    }

    /// Takes the job with this id out of the table.
    pub fn remove_job(&mut self, job_id: u32) -> (r: Option<Job>)
        requires
            old(self).wf(),
        ensures
            final(self).wf(),
            final(self)@ == old(self)@.without_job(job_id),
            !final(self)@.has_job(job_id),
            match r {
                Some(job) => old(self)@.has_job(job_id) && job@ == old(self)@.job(job_id),
                None => !old(self)@.has_job(job_id),
            },
    {
        match self.slot_of(job_id) {
            Some(i) => {
                let job = self.jobs.remove(i);
                proof {
                    assert(self@.jobs =~= old(self)@.jobs.remove(i as int));
                }
                Some(job)
            },
            None => None,
        }
    }

    /// Creates the job for a command line and puts it into the table.
    /// Stage `i` of the job runs `cmds[i]` with `args[i]` and the
    /// redirections `stdin_redir[i]` and `stdout_redir[i]`. Returns the id
    /// of the job.
    pub fn create_job(
        &mut self,
        cmdline: &str,
        cmds: Vec<String>,
        args: Vec<Vec<String>>,
        stdin_redir: Vec<Redirection>,
        stdout_redir: Vec<Redirection>,
    ) -> (r: u32)
        requires
            old(self).wf(),
            old(self)@.next_job_id < u32::MAX,
            cmds@.len() <= args@.len(),
            cmds@.len() <= stdin_redir@.len(),
            cmds@.len() <= stdout_redir@.len(),
        ensures
            final(self).wf(),
            r == old(self)@.next_job_id,
            final(self)@ == old(self)@.created(
                cmdline@,
                new_stages(cmds@, args@, stdin_redir@, stdout_redir@),
            ),
            final(self)@.has_job(r),
            final(self)@.job(r) == final(self)@.jobs.last(),
    {
        let id = self.next_job_id;
        let mut job = Job::new(id, cmdline);
        let n = cmds.len();
        let mut i: usize = 0;
        let ghost stages = new_stages(cmds@, args@, stdin_redir@, stdout_redir@);
        assert(stages.take(0) =~= Seq::empty());
        while i < n
            invariant
                n == cmds@.len(),
                n <= args@.len(),
                n <= stdin_redir@.len(),
                n <= stdout_redir@.len(),
                i <= n,
                stages == new_stages(cmds@, args@, stdin_redir@, stdout_redir@),
                job@ == (JobView {
                    id,
                    state: ProcessStatus::Undef,
                    pipeline: cmdline@,
                    processes: stages.take(i as int),
                    pgid: 0,
                }),
            decreases n - i,
        {
            let stage = Process::new(
                cmds[i].clone(),
                args[i].clone(),
                stdin_redir[i].clone(),
                stdout_redir[i].clone(),
            );
            job.add_process(stage);
            assert(stages.take(i + 1) =~= stages.take(i as int).push(stage@));
            i += 1;
        }
        assert(stages.take(n as int) =~= stages);
        self.jobs.push(job);
        self.next_job_id = id + 1;
        proof {
            let after = old(self)@.created(cmdline@, stages);
            assert(self@.jobs =~= after.jobs);
        }
        id
    }

    /// One step of starting the job with this id; see [`Job::exec`].
    pub fn exec(&mut self, job_id: u32, event: SpawnEvent) -> (r: Option<SpawnPlan>)
        requires
            old(self).wf(),
            old(self)@.has_job(job_id),
            old(self)@.job(job_id).state is Undef,
            !(event is Begin) ==> next_stage(old(self)@.job(job_id).processes) < old(self)@.job(
                job_id,
            ).processes.len(),
            event matches SpawnEvent::Started(pid) ==> pid > 0,
        ensures
            final(self).wf(),
            final(self)@ == old(self)@.with_job(
                job_id,
                old(self)@.job(job_id).launch_step(event, old(self)@.interactive),
            ),
            final(self)@.has_job(job_id),
            final(self)@.job(job_id) == old(self)@.job(job_id).launch_step(
                event,
                old(self)@.interactive,
            ),
            match r {
                Some(plan) => {
                    &&& final(self)@.job(job_id).state is Undef
                    &&& next_stage(final(self)@.job(job_id).processes) < final(self)@.job(
                        job_id,
                    ).processes.len()
                    &&& plan@ == final(self)@.job(job_id).plan(
                        next_stage(final(self)@.job(job_id).processes),
                        old(self)@.interactive,
                    )
                },
                None => next_stage(final(self)@.job(job_id).processes) == final(self)@.job(
                    job_id,
                ).processes.len(),
            },
    {
        let i = match self.slot_of(job_id) {
            Some(i) => i,
            None => {
                return None;
            },
        };
        let interactive = self.interactive;
        let r = self.jobs[i].exec(interactive, event);
        proof {
            let job = old(self)@.job(job_id).launch_step(event, interactive);
            assert(self@.jobs =~= old(self)@.jobs.update(i as int, job));
            lemma_with_job(old(self)@, i as int, job);
        }
        r
    }

    /// Records that process `pid` has taken `status`, in the first job
    /// that owns the process, and returns the id of that job. A report for
    /// a process that no job owns changes nothing.
    pub fn notify(&mut self, pid: i32, status: ProcessStatus) -> (r: Option<u32>)
        requires
            old(self).wf(),
        ensures
            final(self).wf(),
            final(self)@ == old(self)@.notified(pid, status),
            match r {
                Some(id) => old(self)@.tracks(pid) && id == old(self)@.jobs[old(self)@.owner(
                    pid,
                )].id,
                None => !old(self)@.tracks(pid),
            },
    {
        let n = self.jobs.len();
        let mut i: usize = 0;
        while i < n
            invariant
                *self == *old(self),
                self.wf(),
                n == self.jobs@.len(),
                i <= n,
                forall|j: int| 0 <= j < i ==> !(#[trigger] self@.jobs[j]).owns(pid),
            decreases n - i,
        {
            if self.jobs[i].find_stage(pid).is_some() {
                proof {
                    lemma_owner(self@, pid, i as int);
                }
                self.jobs[i].update_process_state(pid, status);
                assert(self@.jobs =~= old(self)@.jobs.update(
                    i as int,
                    old(self)@.jobs[i as int].updated(pid, status),
                ));
                return Some(self.jobs[i].id());
            }
            i += 1;
        }
        None
    }

    /// Marks the job with this id, and each of its stopped stages, as
    /// running again.
    pub fn resume_job(&mut self, job_id: u32)
        requires
            old(self).wf(),
            old(self)@.has_job(job_id),
        ensures
            final(self).wf(),
            final(self)@ == old(self)@.with_job(job_id, old(self)@.job(job_id).resumed()),
            final(self)@.has_job(job_id),
            final(self)@.job(job_id) == old(self)@.job(job_id).resumed(),
    {
        let i = match self.slot_of(job_id) {
            Some(i) => i,
            None => {
                return ;
            },
        };
        self.jobs[i].resume();
        proof {
            let job = old(self)@.job(job_id).resumed();
            assert(self@.jobs =~= old(self)@.jobs.update(i as int, job));
            lemma_with_job(old(self)@, i as int, job);
        }
    }
}

/// A new job leaves every job in agreement with its stages.
pub proof fn lemma_created_agrees(shell: ShellView, cmdline: Seq<char>, stages: Seq<ProcessView>)
    requires
        shell.agrees(),
    ensures
        shell.created(cmdline, stages).agrees(),
{
}

/// A step of the launch of a job leaves every job in agreement with its
/// stages. Left out is a job of which a stage is stopped before the launch
/// is over.
pub proof fn lemma_launch_agrees(shell: ShellView, id: u32, event: SpawnEvent)
    requires
        shell.agrees(),
        shell.has_job(id),
        shell.job(id).state is Undef,
        shell.job(id).none_stopped(),
        !(event is Begin) ==> next_stage(shell.job(id).processes) < shell.job(id).processes.len(),
    ensures
        shell.with_job(id, shell.job(id).launch_step(event, shell.interactive)).agrees(),
{
    let after = shell.with_job(id, shell.job(id).launch_step(event, shell.interactive));
    lemma_launch_step_agrees(shell.job(id), event, shell.interactive);
    assert forall|i: int| 0 <= i < after.jobs.len() implies (#[trigger] after.jobs[i]).agrees() by {
        if i != shell.slot(id) {
            assert(shell.jobs[i].agrees());
        }
    }
}

/// A report leaves every job in agreement with its stages. The one report
/// that does not is left out: one that gives a stage of a job that has
/// exited a status other than an exit.
pub proof fn lemma_notified_agrees(shell: ShellView, pid: i32, status: ProcessStatus)
    requires
        shell.agrees(),
        !(shell.tracks(pid) && shell.jobs[shell.owner(pid)].completed() && !(status is Exited)),
    ensures
        shell.notified(pid, status).agrees(),
{
    if shell.tracks(pid) {
        let k = shell.owner(pid);
        lemma_tracked_owner(shell, pid);
        lemma_update_agrees(shell.jobs[k], pid, status);
    }
}

/// Taking a job out of the table leaves every job in agreement with its
/// stages.
pub proof fn lemma_without_job_agrees(shell: ShellView, id: u32)
    requires
        shell.agrees(),
    ensures
        shell.without_job(id).agrees(),
        shell.deleted(id).agrees(),
{
    let after = shell.without_job(id);
    assert(after.agrees());
}

/// A step of the launch keeps the id of the job, and keeps its process
/// group id from being negative where the started process has a positive
/// id.
pub proof fn lemma_launch_step_keeps_id(job: JobView, event: SpawnEvent, interactive: bool)
    requires
        job.wf(),
        event matches SpawnEvent::Started(pid) ==> pid > 0,
    ensures
        job.launch_step(event, interactive).id == job.id,
        job.launch_step(event, interactive).wf(),
{
}

/// Taking a job out of the table of a well-formed shell leaves a
/// well-formed shell that has every other job, and not that one.
pub proof fn lemma_without_job(shell: ShellView, id: u32)
    requires
        shell.wf(),
    ensures
        shell.without_job(id).wf(),
        !shell.without_job(id).has_job(id),
        forall|other: u32|
            other != id ==> (#[trigger] shell.without_job(id).has_job(other)) == shell.has_job(
                other,
            ),
        forall|other: u32|
            other != id && shell.has_job(other) ==> (#[trigger] shell.without_job(id).job(other))
                == shell.job(other),
{
    let after = shell.without_job(id);
    if shell.has_job(id) {
        let k = shell.slot(id);
        assert forall|other: u32| other != id implies (#[trigger] after.has_job(other))
            == shell.has_job(other) by {
            if shell.has_job(other) {
                let j = shell.slot(other);
                let j1 = if j < k {
                    j
                } else {
                    j - 1
                };
                assert(after.jobs[j1] == shell.jobs[j]);
            }
        }
        assert forall|other: u32| other != id && shell.has_job(other) implies (
        #[trigger] after.job(other)) == shell.job(other) by {
            let j = shell.slot(other);
            let j1 = if j < k {
                j
            } else {
                j - 1
            };
            lemma_slot(after, other, j1);
        }
    }
}

} // verus!
