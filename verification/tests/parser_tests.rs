use tsh::parser::{parseargs, parseline};
use tsh::process::Redirection;
use tsh::variable::{Value, Variables};

fn strings(items: &[&str]) -> Vec<String> {
    items.iter().map(|s| s.to_string()).collect()
}

#[test]
fn tokens_of_a_redirected_command() {
    let (bg, argv) = parseline("echo hi > out.txt\n");
    assert!(!bg);
    assert_eq!(argv, strings(&["echo", " ", "hi", " ", ">", " ", "out.txt"]));
}

#[test]
fn tokens_of_a_background_command() {
    let (bg, argv) = parseline("sleep 5 &\n");
    assert!(bg);
    assert_eq!(argv, strings(&["sleep", " ", "5", " "]));
}

#[test]
fn tokens_of_a_pipeline() {
    let (bg, argv) = parseline("false | true\n");
    assert!(!bg);
    assert_eq!(argv, strings(&["false", " ", "|", " ", "true"]));
    let (_, tight) = parseline("a|b\n");
    assert_eq!(tight, strings(&["a", "|", "b"]));
}

#[test]
fn doubled_operators_are_one_token() {
    let (bg, argv) = parseline("a && b || c >> d\n");
    assert!(!bg);
    assert_eq!(
        argv,
        strings(&["a", " ", "&&", " ", "b", " ", "||", " ", "c", " ", ">>", " ", "d"])
    );
}

#[test]
fn background_goes_by_the_last_ampersand() {
    assert!(!parseline("a && b\n").0);
    assert!(parseline("a && b &\n").0);
    assert!(parseline("&\n").0);
    assert!(!parseline("&&\n").0);
    assert!(!parseline("ls\n").0);
    assert!(!parseline("").0);
    assert!(parseline("a & b\n").0);
}

#[test]
fn quoted_text_is_one_token() {
    let (_, argv) = parseline("echo 'a b | c' d\n");
    assert_eq!(argv, strings(&["echo", " ", "'a b | c'", " ", "d"]));
    let (_, assignment) = parseline("x='a b'\n");
    assert_eq!(assignment, strings(&["x", "=", "'a b'"]));
}

#[test]
fn open_quote_and_open_word_reach_the_end() {
    let (_, argv) = parseline("echo 'abc");
    assert_eq!(argv, strings(&["echo", " ", "'abc"]));
    let (_, word) = parseline("ls");
    assert_eq!(word, strings(&["ls"]));
    let (_, quote) = parseline("'");
    assert_eq!(quote, strings(&["'"]));
}

#[test]
fn empty_line_has_no_tokens() {
    assert_eq!(parseline("").1, Vec::<String>::new());
    assert_eq!(parseline("\n").1, Vec::<String>::new());
}

#[test]
fn input_redirection_and_assignment_tokens() {
    let (_, argv) = parseline("sort < in\n");
    assert_eq!(argv, strings(&["sort", " ", "<", " ", "in"]));
    let (_, assignment) = parseline("a=b\n");
    assert_eq!(assignment, strings(&["a", "=", "b"]));
}

#[test]
fn words_may_hold_other_characters() {
    let (bg, argv) = parseline("a&b é$x\n");
    assert!(bg);
    assert_eq!(argv, strings(&["a&b", " ", "é$x"]));
}

#[test]
fn commands_of_a_redirected_command() {
    let (_, argv) = parseline("echo hi > out.txt\n");
    let (cmds, args, env, stdin, stdout) = parseargs(&argv, &Variables::new());
    assert_eq!(cmds, strings(&["echo"]));
    assert_eq!(args, vec![strings(&["hi"])]);
    assert!(env.is_empty());
    assert_eq!(stdin, vec![Redirection::Normal]);
    assert_eq!(stdout, vec![Redirection::File(("out.txt".to_string(), false))]);
}

#[test]
fn commands_of_a_pipeline() {
    let (_, argv) = parseline("cat a b | sort | wc -l\n");
    let (cmds, args, env, stdin, stdout) = parseargs(&argv, &Variables::new());
    assert_eq!(cmds, strings(&["cat", "sort", "wc"]));
    assert_eq!(args, vec![strings(&["a", "b"]), strings(&[]), strings(&["-l"])]);
    assert!(env.is_empty());
    assert_eq!(stdin, vec![Redirection::Normal, Redirection::Pipe, Redirection::Pipe]);
    assert_eq!(stdout, vec![Redirection::Pipe, Redirection::Pipe, Redirection::Normal]);
}

#[test]
fn commands_with_input_and_appending_output() {
    let (_, argv) = parseline("sort < in >> out\n");
    let (cmds, args, _, stdin, stdout) = parseargs(&argv, &Variables::new());
    assert_eq!(cmds, strings(&["sort"]));
    assert_eq!(args, vec![strings(&[])]);
    assert_eq!(stdin, vec![Redirection::File(("in".to_string(), false))]);
    assert_eq!(stdout, vec![Redirection::File(("out".to_string(), false))]);
}

#[test]
fn redirection_without_target_is_left_out() {
    let (cmds, args, _, stdin, stdout) =
        parseargs(&strings(&["cat", " ", "<"]), &Variables::new());
    assert_eq!(cmds, strings(&["cat"]));
    assert_eq!(args, vec![strings(&[])]);
    assert_eq!(stdin, vec![Redirection::Normal]);
    assert_eq!(stdout, vec![Redirection::Normal]);
}

#[test]
fn no_tokens_give_one_unnamed_command() {
    let (cmds, args, env, stdin, stdout) = parseargs(&vec![], &Variables::new());
    assert_eq!(cmds, strings(&[""]));
    assert_eq!(args, vec![strings(&[])]);
    assert!(env.is_empty());
    assert_eq!(stdin, vec![Redirection::Normal]);
    assert_eq!(stdout, vec![Redirection::Normal]);
}

#[test]
fn assignments_are_set_apart() {
    let (_, argv) = parseline("x=1 y='a b' run\n");
    let (cmds, args, env, _, _) = parseargs(&argv, &Variables::new());
    assert_eq!(
        env,
        vec![("x".to_string(), "1".to_string()), ("y".to_string(), "a b".to_string())]
    );
    assert_eq!(cmds, strings(&["run"]));
    assert_eq!(args, vec![strings(&[])]);
}

#[test]
fn chained_commands_are_marked() {
    let (_, argv) = parseline("a x && b || c\n");
    let (cmds, args, _, stdin, stdout) = parseargs(&argv, &Variables::new());
    assert_eq!(cmds, strings(&["a", "&&", "b", "&&", "c"]));
    assert_eq!(
        args,
        vec![strings(&["x"]), strings(&[]), strings(&[]), strings(&[]), strings(&[])]
    );
    assert_eq!(stdin, vec![Redirection::Normal; 5]);
    assert_eq!(stdout, vec![Redirection::Normal; 5]);
}

#[test]
fn variables_are_expanded() {
    let mut vars = Variables::new();
    vars.set("CMD", Value::String("ls -l /tmp".to_string()));
    vars.set("ARG", Value::String("one two".to_string()));
    vars.set("ONE", Value::String("single".to_string()));
    let (_, argv) = parseline("$CMD $ARG $ONE $NONE\n");
    let (cmds, args, _, _, _) = parseargs(&argv, &vars);
    assert_eq!(cmds, strings(&["ls"]));
    assert_eq!(args, vec![strings(&["-l", "/tmp", "one", "two", "single", "$NONE"])]);
}

#[test]
fn unknown_variable_stands_for_itself() {
    let (_, argv) = parseline("$NOPE a\n");
    let (cmds, args, _, _, _) = parseargs(&argv, &Variables::new());
    assert_eq!(cmds, strings(&["$NOPE"]));
    assert_eq!(args, vec![strings(&["a"])]);
}

#[test]
fn doubled_space_in_a_variable_gives_an_empty_word() {
    let mut vars = Variables::new();
    vars.set("V", Value::String("a  b".to_string()));
    let (cmds, args, _, _, _) = parseargs(&strings(&["run", " ", "$V"]), &vars);
    assert_eq!(cmds, strings(&["run"]));
    assert_eq!(args, vec![strings(&["a", "", "b"])]);
}
