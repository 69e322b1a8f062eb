use tsh::expr::Command;
use tsh::variable::{Value, Variable, Variables};

fn text(v: &Variable) -> String {
    v.as_str().to_string()
}

#[test]
fn variable_text_of_each_kind() {
    assert_eq!(Variable::new(None).as_str(), "");
    assert_eq!(Variable::new(Some(Value::String("abc".to_string()))).as_str(), "abc");
    assert_eq!(
        Variable::new(Some(Value::Array(vec!["x".to_string(), "y".to_string()]))).as_str(),
        "x"
    );
    assert_eq!(Variable::new(Some(Value::Array(vec![]))).as_str(), "");
    let f = Value::Function(Box::new(Command { cmd: "ls".to_string(), args: vec![] }));
    assert_eq!(Variable::new(Some(f)).as_str(), "(function)");
}

#[test]
fn variable_value_is_what_it_was_made_with() {
    let v = Variable::new(Some(Value::String("abc".to_string())));
    assert!(matches!(v.value(), Some(Value::String(s)) if s == "abc"));
    assert!(Variable::new(None).value().is_none());
}

#[test]
fn new_store_is_empty() {
    let vars = Variables::new();
    assert!(vars.get("HOME").is_none());
    assert_eq!(vars.num_func_args(), 0);
    assert!(vars.get_func_args().is_empty());
}

#[test]
fn define_declares_without_value() {
    let mut vars = Variables::new();
    vars.define("x");
    let x = vars.get("x").unwrap();
    assert!(x.value().is_none());
    assert_eq!(x.as_str(), "");
}

#[test]
fn set_then_get_gives_the_value() {
    let mut vars = Variables::new();
    vars.set("x", Value::String("1".to_string()));
    vars.set("y", Value::String("2".to_string()));
    assert_eq!(text(&vars.get("x").unwrap()), "1");
    assert_eq!(text(&vars.get("y").unwrap()), "2");
    assert!(vars.get("z").is_none());
}

#[test]
fn set_replaces_the_value() {
    let mut vars = Variables::new();
    vars.set("x", Value::String("1".to_string()));
    vars.set("x", Value::String("2".to_string()));
    assert_eq!(text(&vars.get("x").unwrap()), "2");
    vars.define("x");
    assert!(vars.get("x").unwrap().value().is_none());
}

#[test]
fn remove_returns_the_value_once() {
    let mut vars = Variables::new();
    vars.set("x", Value::String("1".to_string()));
    vars.set("y", Value::String("2".to_string()));
    let gone = vars.remove("x").unwrap();
    assert_eq!(text(&gone), "1");
    assert!(vars.get("x").is_none());
    assert!(vars.remove("x").is_none());
    assert_eq!(text(&vars.get("y").unwrap()), "2");
}

#[test]
fn func_args_are_the_leading_numbers() {
    let mut vars = Variables::new();
    vars.set_func_args(&["a".to_string(), "b".to_string(), "c".to_string()]);
    assert_eq!(vars.num_func_args(), 3);
    let args = vars.get_func_args();
    assert_eq!(args.len(), 3);
    assert_eq!(text(&args[0]), "a");
    assert_eq!(text(&args[1]), "b");
    assert_eq!(text(&args[2]), "c");
    assert_eq!(text(&vars.get("1").unwrap()), "a");
    assert_eq!(text(&vars.get("3").unwrap()), "c");
    assert!(vars.get("0").is_none());
    assert!(vars.get("4").is_none());
}

#[test]
fn func_args_stop_at_the_first_gap() {
    let mut vars = Variables::new();
    vars.set_nth_func_arg(1, Value::String("a".to_string()));
    vars.set_nth_func_arg(2, Value::String("b".to_string()));
    vars.set_nth_func_arg(4, Value::String("d".to_string()));
    assert_eq!(vars.num_func_args(), 2);
    assert_eq!(vars.get_func_args().len(), 2);
    assert_eq!(vars.get_func_args_string(), vec!["a".to_string(), "b".to_string()]);
    assert_eq!(text(&vars.get_nth_func_arg(4).unwrap()), "d");
    assert!(vars.get_nth_func_arg(3).is_none());
}

#[test]
fn num_func_args_counts_to_nine() {
    let mut vars = Variables::new();
    let args: Vec<String> = (1..=12).map(|i| format!("v{}", i)).collect();
    vars.set_func_args(&args);
    assert_eq!(vars.num_func_args(), 9);
    assert_eq!(vars.get_func_args().len(), 12);
    assert_eq!(text(&vars.get("10").unwrap()), "v10");
    assert_eq!(text(&vars.get("12").unwrap()), "v12");
}

#[test]
fn func_args_string_leaves_out_what_is_no_string() {
    let mut vars = Variables::new();
    vars.set_nth_func_arg(1, Value::String("a".to_string()));
    vars.set_nth_func_arg(2, Value::Array(vec!["x".to_string()]));
    vars.define("3");
    vars.set_nth_func_arg(4, Value::String("d".to_string()));
    assert_eq!(vars.get_func_args().len(), 4);
    assert_eq!(vars.get_func_args_string(), vec!["a".to_string(), "d".to_string()]);
}

#[test]
fn set_func_args_keeps_later_names() {
    let mut vars = Variables::new();
    vars.set_func_args(&["a".to_string(), "b".to_string(), "c".to_string()]);
    vars.set_func_args(&["x".to_string()]);
    assert_eq!(vars.get_func_args_string(), vec!["x".to_string(), "b".to_string(), "c".to_string()]);
    vars.set_func_args(&[]);
    assert_eq!(vars.num_func_args(), 3);
}

#[test]
fn remove_nth_func_arg_shortens_the_arguments() {
    let mut vars = Variables::new();
    vars.set_func_args(&["a".to_string(), "b".to_string(), "c".to_string()]);
    let gone = vars.remove_nth_func_arg(2).unwrap();
    assert_eq!(text(&gone), "b");
    assert_eq!(vars.num_func_args(), 1);
    assert!(vars.remove_nth_func_arg(2).is_none());
    assert_eq!(text(&vars.get("3").unwrap()), "c");
}

#[test]
fn shared_variable_is_the_stored_one() {
    let mut vars = Variables::new();
    vars.set("x", Value::Array(vec!["p".to_string(), "q".to_string()]));
    let first = vars.get("x").unwrap();
    let second = vars.get("x").unwrap();
    assert!(std::rc::Rc::ptr_eq(&first, &second));
    assert!(matches!(first.value(), Some(Value::Array(items)) if items.len() == 2));
}
