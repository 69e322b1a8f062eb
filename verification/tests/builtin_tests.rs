use tsh::builtin::{builtin_cmd, Builtin};

fn argv(items: &[&str]) -> Vec<String> {
    items.iter().map(|s| s.to_string()).collect()
}

#[test]
fn empty_line_is_blank() {
    assert_eq!(builtin_cmd(&argv(&[])), Builtin::Blank);
    assert_eq!(builtin_cmd(&argv(&[" ", "ls"])), Builtin::Blank);
    assert_eq!(builtin_cmd(&argv(&[""])), Builtin::Blank);
}

#[test]
fn quit_and_exit_end_the_shell() {
    assert_eq!(builtin_cmd(&argv(&["quit"])), Builtin::Exit);
    assert_eq!(builtin_cmd(&argv(&["exit", " ", "3"])), Builtin::Exit);
}

#[test]
fn cd_takes_the_third_token() {
    assert_eq!(builtin_cmd(&argv(&["cd"])), Builtin::ChangeDir(None));
    assert_eq!(builtin_cmd(&argv(&["cd", " "])), Builtin::ChangeDir(None));
    assert_eq!(
        builtin_cmd(&argv(&["cd", " ", "/tmp"])),
        Builtin::ChangeDir(Some("/tmp".to_string()))
    );
}

#[test]
fn any_other_word_is_a_program() {
    assert_eq!(builtin_cmd(&argv(&["ls", " ", "-l"])), Builtin::External);
    assert_eq!(builtin_cmd(&argv(&["cdx"])), Builtin::External);
    assert_eq!(builtin_cmd(&argv(&["Exit"])), Builtin::External);
}
