use tsh::process::{
    Job, Process, ProcessStatus, Redirection, Sink, Source, SpawnEvent, SpawnPlan,
    SIGNALED_CODE, SPAWN_FAILED_CODE,
};

fn stage(cmd: &str, stdin: Redirection, stdout: Redirection) -> Process {
    Process::new(cmd.to_string(), vec![], stdin, stdout)
}

fn plain(cmd: &str) -> Process {
    stage(cmd, Redirection::Normal, Redirection::Normal)
}

/// A pipeline of `n` stages `p0 | p1 | ..`, started with the process ids
/// 101, 102, and so on.
fn running_pipeline(n: usize, interactive: bool) -> Job {
    let mut job = Job::new(1, "pipeline");
    for i in 0..n {
        let stdin = if i == 0 { Redirection::Normal } else { Redirection::Pipe };
        let stdout = if i + 1 == n { Redirection::Normal } else { Redirection::Pipe };
        job.add_process(stage(&format!("p{}", i), stdin, stdout));
    }
    let mut next = job.exec(interactive, SpawnEvent::Begin);
    let mut pid = 101;
    while next.is_some() {
        next = job.exec(interactive, SpawnEvent::Started(pid));
        pid += 1;
    }
    job
}

#[test]
fn new_process_is_undefined_and_has_no_handle() {
    let p = Process::new(
        "ls".to_string(),
        vec!["-l".to_string()],
        Redirection::Normal,
        Redirection::File(("out".to_string(), true)),
    );
    assert_eq!(p.cmd, "ls");
    assert_eq!(p.args, vec!["-l".to_string()]);
    assert_eq!(p.stdin_redir, Redirection::Normal);
    assert_eq!(p.stdout_redir, Redirection::File(("out".to_string(), true)));
    assert_eq!(p.status, ProcessStatus::Undef);
    assert_eq!(p.process, None);
}

#[test]
fn set_process_gives_the_pid() {
    let mut p = plain("ls");
    p.set_process(4321);
    assert_eq!(p.pid(), 4321);
    assert_eq!(p.status, ProcessStatus::Undef);
}

#[test]
fn redirection_clone_is_equal() {
    let r = Redirection::File(("a.txt".to_string(), true));
    assert_eq!(r.clone(), r);
    assert_eq!(Redirection::Redir("2".to_string()).clone(), Redirection::Redir("2".to_string()));
    assert_eq!(Redirection::Pipe.clone(), Redirection::Pipe);
}

#[test]
fn new_job_is_empty_and_undefined() {
    let job = Job::new(7, "ls -l");
    assert_eq!(job.id(), 7);
    assert_eq!(job.pgid(), 0);
    assert_eq!(job.pipeline(), "ls -l");
    assert_eq!(job.state(), ProcessStatus::Undef);
    assert!(job.processes().is_empty());
    assert!(!job.completed());
    assert!(!job.stopped());
}

#[test]
fn add_process_appends_in_order() {
    let mut job = Job::new(1, "a | b");
    job.add_process(plain("a"));
    job.add_process(plain("b"));
    assert_eq!(job.processes().len(), 2);
    assert_eq!(job.processes()[0].cmd, "a");
    assert_eq!(job.processes()[1].cmd, "b");
    assert_eq!(job.next_stage(), 0);
}

#[test]
fn launch_of_one_stage_runs() {
    let mut job = Job::new(1, "ls");
    job.add_process(Process::new(
        "ls".to_string(),
        vec!["-l".to_string(), "/".to_string()],
        Redirection::Normal,
        Redirection::Normal,
    ));
    let plan = job.exec(false, SpawnEvent::Begin);
    assert_eq!(
        plan,
        Some(SpawnPlan {
            cmd: "ls".to_string(),
            args: vec!["-l".to_string(), "/".to_string()],
            group: None,
            stdin: Source::Inherit,
            stdout: Sink::Inherit,
        })
    );
    assert_eq!(job.state(), ProcessStatus::Undef);
    assert_eq!(job.exec(false, SpawnEvent::Started(500)), None);
    assert_eq!(job.state(), ProcessStatus::Running);
    assert_eq!(job.processes()[0].status, ProcessStatus::Running);
    assert_eq!(job.processes()[0].pid(), 500);
    assert_eq!(job.pgid(), 0);
    assert_eq!(job.next_stage(), 1);
}

#[test]
fn interactive_launch_opens_one_process_group() {
    let mut job = Job::new(1, "a | b | c");
    job.add_process(stage("a", Redirection::Normal, Redirection::Pipe));
    job.add_process(stage("b", Redirection::Pipe, Redirection::Pipe));
    job.add_process(stage("c", Redirection::Pipe, Redirection::Normal));
    let first = job.exec(true, SpawnEvent::Begin).unwrap();
    assert_eq!(first.group, Some(0));
    assert_eq!(first.stdin, Source::Inherit);
    assert_eq!(first.stdout, Sink::Downstream);
    let second = job.exec(true, SpawnEvent::Started(300)).unwrap();
    assert_eq!(job.pgid(), 300);
    assert_eq!(second.cmd, "b");
    assert_eq!(second.group, Some(300));
    assert_eq!(second.stdin, Source::Upstream);
    assert_eq!(second.stdout, Sink::Downstream);
    let third = job.exec(true, SpawnEvent::Started(301)).unwrap();
    assert_eq!(job.pgid(), 300);
    assert_eq!(third.group, Some(300));
    assert_eq!(third.stdin, Source::Upstream);
    assert_eq!(third.stdout, Sink::Inherit);
    assert_eq!(job.exec(true, SpawnEvent::Started(302)), None);
    assert_eq!(job.pgid(), 300);
    assert_eq!(job.state(), ProcessStatus::Running);
}

#[test]
fn single_stage_never_plans_a_pipe() {
    let mut job = Job::new(1, "ls");
    job.add_process(plain("ls"));
    let plan = job.exec(true, SpawnEvent::Begin).unwrap();
    assert_eq!(plan.stdin, Source::Inherit);
    assert_eq!(plan.stdout, Sink::Inherit);
}

#[test]
fn file_redirections_are_planned() {
    let mut job = Job::new(1, "sort < in > out");
    job.add_process(stage(
        "sort",
        Redirection::File(("in".to_string(), false)),
        Redirection::File(("out".to_string(), false)),
    ));
    let plan = job.exec(false, SpawnEvent::Begin).unwrap();
    assert_eq!(plan.stdin, Source::File("in".to_string()));
    assert_eq!(plan.stdout, Sink::File("out".to_string(), false));

    let mut appending = Job::new(2, "log");
    appending.add_process(stage(
        "log",
        Redirection::Redir("2".to_string()),
        Redirection::File(("all".to_string(), true)),
    ));
    let plan = appending.plan(0, false);
    assert_eq!(plan.stdin, Source::Inherit);
    assert_eq!(plan.stdout, Sink::File("all".to_string(), true));
}

#[test]
fn missing_program_exits_the_job_at_once() {
    let mut job = Job::new(1, "no-such-program");
    job.add_process(plain("no-such-program"));
    assert!(job.exec(true, SpawnEvent::Begin).is_some());
    assert_eq!(job.exec(true, SpawnEvent::Failed), None);
    assert_eq!(job.processes()[0].status, ProcessStatus::Exited(SPAWN_FAILED_CODE));
    assert_eq!(job.processes()[0].process, None);
    assert_eq!(job.state(), ProcessStatus::Exited(127));
    assert!(job.completed());
    assert_eq!(job.pgid(), 0);
}

#[test]
fn job_without_stages_exits_at_launch() {
    let mut job = Job::new(1, "");
    assert_eq!(job.exec(false, SpawnEvent::Begin), None);
    assert_eq!(job.state(), ProcessStatus::Exited(0));
}

#[test]
fn stage_behind_a_failed_stage_reads_nothing() {
    let mut job = Job::new(1, "nope | wc");
    job.add_process(stage("nope", Redirection::Normal, Redirection::Pipe));
    job.add_process(stage("wc", Redirection::Pipe, Redirection::Normal));
    job.exec(true, SpawnEvent::Begin);
    let second = job.exec(true, SpawnEvent::Failed).unwrap();
    assert_eq!(second.stdin, Source::Nothing);
    assert_eq!(second.group, Some(0));
    assert_eq!(job.exec(true, SpawnEvent::Started(77)), None);
    assert_eq!(job.pgid(), 77);
    assert_eq!(job.state(), ProcessStatus::Running);
    job.update_process_state(77, ProcessStatus::Exited(0));
    assert_eq!(job.state(), ProcessStatus::Exited(0));
}

#[test]
fn pipe_input_on_the_first_stage_reads_nothing() {
    let mut job = Job::new(1, "| wc");
    job.add_process(stage("wc", Redirection::Pipe, Redirection::Normal));
    assert_eq!(job.plan(0, false).stdin, Source::Nothing);
}

#[test]
fn job_exits_only_when_every_stage_has() {
    let mut job = running_pipeline(3, true);
    job.update_process_state(102, ProcessStatus::Exited(0));
    assert_eq!(job.state(), ProcessStatus::Running);
    assert!(!job.all_exited());
    job.update_process_state(101, ProcessStatus::Exited(3));
    assert_eq!(job.state(), ProcessStatus::Running);
    job.update_process_state(103, ProcessStatus::Exited(9));
    assert!(job.all_exited());
    assert_eq!(job.state(), ProcessStatus::Exited(9));
    assert!(job.completed());
}

#[test]
fn job_stops_only_when_every_stage_has() {
    let mut job = running_pipeline(2, true);
    job.update_process_state(101, ProcessStatus::Stopped);
    assert_eq!(job.state(), ProcessStatus::Running);
    assert!(!job.stopped());
    job.update_process_state(102, ProcessStatus::Stopped);
    assert!(job.all_stopped());
    assert_eq!(job.state(), ProcessStatus::Stopped);
    assert!(job.stopped());
}

#[test]
fn mixture_keeps_the_last_aggregate_state() {
    let mut job = running_pipeline(2, true);
    job.update_process_state(101, ProcessStatus::Stopped);
    job.update_process_state(102, ProcessStatus::Stopped);
    assert_eq!(job.state(), ProcessStatus::Stopped);
    job.update_process_state(101, ProcessStatus::Exited(SIGNALED_CODE));
    assert_eq!(job.state(), ProcessStatus::Stopped);
    job.update_process_state(102, ProcessStatus::Exited(0));
    assert_eq!(job.state(), ProcessStatus::Exited(0));
}

#[test]
fn pipeline_code_follows_the_last_stage() {
    // false | true, with `true` reported first and `false` last
    let mut job = running_pipeline(2, false);
    job.update_process_state(102, ProcessStatus::Exited(0));
    job.update_process_state(101, ProcessStatus::Exited(1));
    assert_eq!(job.state(), ProcessStatus::Exited(0));
    assert_eq!(job.pipeline_code(), 0);

    // and with `false` reported first
    let mut job = running_pipeline(2, false);
    job.update_process_state(101, ProcessStatus::Exited(1));
    job.update_process_state(102, ProcessStatus::Exited(0));
    assert_eq!(job.state(), ProcessStatus::Exited(0));

    // true | false
    let mut job = running_pipeline(2, false);
    job.update_process_state(101, ProcessStatus::Exited(0));
    job.update_process_state(102, ProcessStatus::Exited(1));
    assert_eq!(job.state(), ProcessStatus::Exited(1));
}

#[test]
fn report_for_a_foreign_process_changes_nothing() {
    let mut job = running_pipeline(2, true);
    job.update_process_state(999, ProcessStatus::Exited(5));
    assert_eq!(job.state(), ProcessStatus::Running);
    assert_eq!(job.processes()[0].status, ProcessStatus::Running);
    assert_eq!(job.processes()[1].status, ProcessStatus::Running);
    job.update_process_state(999, ProcessStatus::Stopped);
    assert_eq!(job.state(), ProcessStatus::Running);
    assert_eq!(job.find_stage(999), None);
    assert_eq!(job.find_stage(102), Some(1));
}

#[test]
fn repeated_report_changes_nothing_more() {
    let mut job = running_pipeline(2, true);
    job.update_process_state(101, ProcessStatus::Exited(4));
    let state = job.state();
    let first = job.processes()[0].status;
    let second = job.processes()[1].status;
    job.update_process_state(101, ProcessStatus::Exited(4));
    assert_eq!(job.state(), state);
    assert_eq!(job.processes()[0].status, first);
    assert_eq!(job.processes()[1].status, second);

    job.update_process_state(102, ProcessStatus::Exited(6));
    assert_eq!(job.state(), ProcessStatus::Exited(6));
    job.update_process_state(102, ProcessStatus::Exited(6));
    assert_eq!(job.state(), ProcessStatus::Exited(6));

    let mut stopped = running_pipeline(1, true);
    stopped.update_process_state(101, ProcessStatus::Stopped);
    stopped.update_process_state(101, ProcessStatus::Stopped);
    assert_eq!(stopped.state(), ProcessStatus::Stopped);
}

#[test]
fn report_goes_to_the_first_stage_with_the_pid() {
    let mut job = Job::new(1, "a | b");
    job.add_process(plain("a"));
    job.add_process(plain("b"));
    job.exec(false, SpawnEvent::Begin);
    job.exec(false, SpawnEvent::Started(50));
    job.exec(false, SpawnEvent::Started(50));
    job.update_process_state(50, ProcessStatus::Exited(2));
    assert_eq!(job.processes()[0].status, ProcessStatus::Exited(2));
    assert_eq!(job.processes()[1].status, ProcessStatus::Running);
    assert_eq!(job.state(), ProcessStatus::Running);
}

#[test]
fn resume_lets_stopped_stages_run() {
    let mut job = running_pipeline(3, true);
    job.update_process_state(101, ProcessStatus::Stopped);
    job.update_process_state(102, ProcessStatus::Exited(0));
    job.update_process_state(103, ProcessStatus::Stopped);
    job.resume();
    assert_eq!(job.state(), ProcessStatus::Running);
    assert_eq!(job.processes()[0].status, ProcessStatus::Running);
    assert_eq!(job.processes()[1].status, ProcessStatus::Exited(0));
    assert_eq!(job.processes()[2].status, ProcessStatus::Running);
    assert_eq!(job.id(), 1);
    assert_eq!(job.pgid(), 101);
}
