use initx::{Registry, Template};

fn template(name: &str, alias: &[&str]) -> Template {
    Template {
        name: name.to_string(),
        description: "d".to_string(),
        alias: alias.iter().map(|a| a.to_string()).collect(),
        commands: vec![],
        ignore: vec![],
        path: format!("/templates/{}", name),
    }
}

fn names(r: &Registry) -> Vec<String> {
    r.list_templates().iter().map(|t| t.name.clone()).collect()
}

#[test]
fn unreadable_metadata_is_left_out() {
    let r = Registry::from_loaded(vec![Some(template("rust", &[])), None, Some(template("nix", &[]))]);
    assert_eq!(names(&r), vec!["rust".to_string(), "nix".to_string()]);
}

#[test]
fn later_template_of_same_name_wins() {
    let mut second = template("rust", &["rs"]);
    second.description = "second".to_string();
    let r = Registry::from_loaded(vec![Some(template("rust", &[])), Some(template("nix", &[])), Some(second)]);
    assert_eq!(names(&r), vec!["rust".to_string(), "nix".to_string()]);
    assert_eq!(r.list_templates()[0].description, "second");
}

#[test]
fn find_by_name_ignores_case() {
    let r = Registry::from_loaded(vec![Some(template("Rust", &[])), Some(template("nix", &[]))]);
    assert_eq!(r.find("RUST").map(|t| t.name.clone()), Some("Rust".to_string()));
    assert_eq!(r.find("nix").map(|t| t.name.clone()), Some("nix".to_string()));
}

#[test]
fn find_by_alias_lowers_the_query() {
    let r = Registry::from_loaded(vec![Some(template("python", &["py", "Snake"]))]);
    assert_eq!(r.find("PY").map(|t| t.name.clone()), Some("python".to_string()));
    assert!(r.find("Snake").is_none());
    assert!(r.find("go").is_none());
}

#[test]
fn find_takes_the_first_match() {
    let r = Registry::from_loaded(vec![Some(template("a", &["x"])), Some(template("b", &["x"]))]);
    assert_eq!(r.find("x").map(|t| t.name.clone()), Some("a".to_string()));
}

#[test]
fn empty_registry_finds_nothing() {
    let r = Registry::from_loaded(vec![None]);
    assert!(r.list_templates().is_empty());
    assert!(r.find("anything").is_none());
}

#[test]
fn matches_lowered_compares_lowered_name() {
    let t = template("MyTpl", &[]);
    assert!(t.matches_lowered(&"mytpl".to_string()));
    assert!(!t.matches_lowered(&"MyTpl".to_string()));
}
