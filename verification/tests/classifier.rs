use har_bench::classifier::classify;
use har_bench::rules::{parse_category, Category};

fn rule(name: &str, regex: Option<&str>, nregex: Option<&str>) -> Category {
    Category::from_sources(name, regex, nregex).unwrap()
}

#[test]
fn classify_returns_the_first_rule_that_matches() {
    let rules = vec![
        rule("api", Some("^/api/"), None),
        rule("users", Some("users"), None),
        rule("static", None, Some("^/api/")),
    ];
    assert_eq!(classify(&rules, "/api/users"), Some(0));
    assert_eq!(classify(&rules, "/v2/users"), Some(1));
    assert_eq!(classify(&rules, "/index.html"), Some(2));
}

#[test]
fn classify_finds_nothing_where_no_rule_matches() {
    let rules = vec![rule("only", Some("^/x/"), None)];
    assert_eq!(classify(&rules, "/y/"), None);
    assert_eq!(classify(&rules, "/x/"), Some(0));
}

#[test]
fn classify_finds_nothing_without_rules() {
    let rules: Vec<Category> = Vec::new();
    assert_eq!(classify(&rules, "/"), None);
    assert_eq!(classify(&rules, ""), None);
}

#[test]
fn trailing_catch_all_classifies_every_path() {
    let rules = vec![
        rule("api", Some("^/api/"), None),
        rule("img", Some("\\.png$"), None),
        rule("rest", None, None),
    ];
    for path in ["/api/a", "/a.png", "/", "", "/other", "??", "/API/a"] {
        assert!(classify(&rules, path).is_some(), "{} was skipped", path);
    }
    assert_eq!(classify(&rules, "/other"), Some(2));
    assert_eq!(classify(&rules, "/api/a.png"), Some(0));
}

#[test]
fn catch_all_hides_the_rules_behind_it() {
    let rules = vec![
        rule("rest", None, None),
        rule("api", Some("^/api/"), None),
    ];
    assert_eq!(classify(&rules, "/api/a"), Some(0));
    assert_eq!(classify(&rules, "/x"), Some(0));
}

#[test]
fn classification_is_repeatable() {
    let rules = parse_category(
        r#"[{"name": "api", "regex": "^/api/"}, {"name": "static", "nregex": "^/api/"}]"#,
    )
    .unwrap();
    let again = parse_category(
        r#"[{"name": "api", "regex": "^/api/"}, {"name": "static", "nregex": "^/api/"}]"#,
    )
    .unwrap();
    for path in ["/api/users", "/index.html", "/api/orders", ""] {
        let first = classify(&rules, path);
        assert_eq!(classify(&rules, path), first);
        assert_eq!(classify(&again, path), first);
    }
}

#[test]
fn exclude_rule_takes_what_the_pattern_rejects() {
    let rules = vec![
        rule("not-api", None, Some("^/api/")),
        rule("api", Some("^/api/"), None),
    ];
    assert_eq!(classify(&rules, "/index.html"), Some(0));
    assert_eq!(classify(&rules, "/api/users"), Some(1));
}
