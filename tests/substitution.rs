use initx::{apply_template, command_argv, split_command, Vars};

fn vars_of(pairs: &[(&str, &str)]) -> Vars {
    let mut v = Vars::new();
    for (k, val) in pairs {
        v.insert(k, val);
    }
    v
}

#[test]
fn text_without_placeholder_is_unchanged() {
    let v = vars_of(&[("name", "X")]);
    assert_eq!(apply_template("plain text, no vars", &v), "plain text, no vars");
    assert_eq!(apply_template("", &v), "");
}

#[test]
fn bound_name_is_replaced() {
    let v = vars_of(&[("name", "World"), ("location", "/tmp/proj")]);
    assert_eq!(apply_template("$name", &v), "World");
    assert_eq!(apply_template("$location", &v), "/tmp/proj");
}

#[test]
fn unbound_name_is_kept() {
    let v = vars_of(&[("name", "World")]);
    assert_eq!(apply_template("$other", &v), "$other");
    assert_eq!(apply_template("$names", &v), "$names");
}

#[test]
fn lone_dollar_is_kept() {
    let v = vars_of(&[("name", "World")]);
    assert_eq!(apply_template("$", &v), "$");
    assert_eq!(apply_template("cost: 5$", &v), "cost: 5$");
    assert_eq!(apply_template("$ name", &v), "$ name");
}

#[test]
fn double_dollar_keeps_first() {
    let v = vars_of(&[("name", "X")]);
    assert_eq!(apply_template("$$name", &v), "$X");
}

#[test]
fn greeting_file_is_filled() {
    let v = Vars::for_project("/tmp/proj", "World");
    assert_eq!(apply_template("Hello, $name!", &v), "Hello, World!");
}

#[test]
fn values_are_not_scanned_again() {
    let v = vars_of(&[("a", "$b"), ("b", "no")]);
    assert_eq!(apply_template("$a", &v), "$b");
}

#[test]
fn names_are_ascii_runs() {
    let v = vars_of(&[("name_1", "ok"), ("n", "N")]);
    assert_eq!(apply_template("$name_1-x", &v), "ok-x");
    assert_eq!(apply_template("$né", &v), "Né");
    assert_eq!(apply_template("é$n€", &v), "éN€");
}

#[test]
fn later_insert_overrides() {
    let v = vars_of(&[("name", "first"), ("name", "second")]);
    assert_eq!(apply_template("$name", &v), "second");
}

#[test]
fn split_on_single_spaces() {
    assert_eq!(split_command("git init"), vec!["git".to_string(), "init".to_string()]);
    assert_eq!(split_command("a  b"), vec!["a".to_string(), "".to_string(), "b".to_string()]);
    assert_eq!(split_command(""), vec!["".to_string()]);
    assert_eq!(split_command("ls "), vec!["ls".to_string(), "".to_string()]);
}

#[test]
fn command_is_substituted_then_split() {
    let v = Vars::for_project("/tmp/proj", "demo");
    assert_eq!(
        command_argv("git init $location/$name", &v),
        vec!["git".to_string(), "init".to_string(), "/tmp/proj/demo".to_string()]
    );
}
