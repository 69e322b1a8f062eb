use tsh::eval::{eval, Request};
use tsh::process::{ProcessStatus, Redirection};
use tsh::shell::Shell;
use tsh::variable::Value;

#[test]
fn blank_lines_ask_for_nothing() {
    let mut shell = Shell::new();
    assert_eq!(eval("", &mut shell), Request::Blank);
    assert_eq!(eval("\n", &mut shell), Request::Blank);
    assert_eq!(eval(" ls\n", &mut shell), Request::Blank);
    assert_eq!(shell.next_job_id(), 1);
}

#[test]
fn exit_and_quit_end_the_shell() {
    let mut shell = Shell::new();
    assert_eq!(eval("exit\n", &mut shell), Request::Exit);
    assert_eq!(eval("quit\n", &mut shell), Request::Exit);
    assert_eq!(shell.next_job_id(), 1);
}

#[test]
fn cd_names_its_directory() {
    let mut shell = Shell::new();
    assert_eq!(eval("cd\n", &mut shell), Request::ChangeDir(None));
    assert_eq!(eval("cd /tmp\n", &mut shell), Request::ChangeDir(Some("/tmp".to_string())));
    assert!(shell.job(1).is_none());
}

#[test]
fn a_program_becomes_a_job() {
    let mut shell = Shell::new();
    assert_eq!(
        eval("cat f | wc -l > n\n", &mut shell),
        Request::Launch { job: 1, background: false }
    );
    let job = shell.job(1).unwrap();
    assert_eq!(job.pipeline(), "cat f | wc -l > n\n");
    assert_eq!(job.state(), ProcessStatus::Undef);
    let stages = job.processes();
    assert_eq!(stages.len(), 2);
    assert_eq!(stages[0].cmd, "cat");
    assert_eq!(stages[0].args, vec!["f".to_string()]);
    assert_eq!(stages[0].stdout_redir, Redirection::Pipe);
    assert_eq!(stages[1].cmd, "wc");
    assert_eq!(stages[1].args, vec!["-l".to_string()]);
    assert_eq!(stages[1].stdin_redir, Redirection::Pipe);
    assert_eq!(stages[1].stdout_redir, Redirection::File(("n".to_string(), false)));
    assert_eq!(
        eval("sleep 5 &\n", &mut shell),
        Request::Launch { job: 2, background: true }
    );
    assert_eq!(shell.job(2).unwrap().processes()[0].args, vec!["5".to_string()]);
}

#[test]
fn variables_of_the_shell_are_expanded() {
    let mut shell = Shell::new();
    shell.set_variable("LS", Value::String("ls -a".to_string()));
    assert_eq!(eval("$LS /\n", &mut shell), Request::Launch { job: 1, background: false });
    let stage = &shell.job(1).unwrap().processes()[0];
    assert_eq!(stage.cmd, "ls");
    assert_eq!(stage.args, vec!["-a".to_string(), "/".to_string()]);
}
