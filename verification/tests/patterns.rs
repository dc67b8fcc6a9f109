use har_bench::pattern::{Pattern, PatternError};

#[test]
fn pattern_accepts_a_source_that_compiles() {
    let p = Pattern::new("^/api/").unwrap();
    assert_eq!(p.as_str(), "^/api/");
}

#[test]
fn pattern_refuses_an_unclosed_group() {
    assert_eq!(Pattern::new("foo(bar").err(), Some(PatternError::DoesNotCompile));
}

#[test]
fn pattern_refuses_an_expression_that_grows_too_large() {
    assert_eq!(Pattern::new(r"\w{1000}").err(), Some(PatternError::DoesNotCompile));
}

#[test]
fn pattern_accepts_the_empty_source() {
    let p = Pattern::new("").unwrap();
    assert!(p.is_match(""));
    assert!(p.is_match("/anything"));
}

#[test]
fn pattern_matches_anywhere_in_the_text() {
    let p = Pattern::new("users").unwrap();
    assert!(p.is_match("/api/users/42"));
    assert!(!p.is_match("/api/orders/42"));
}

#[test]
fn pattern_honours_anchors() {
    let p = Pattern::new("^/api/").unwrap();
    assert!(p.is_match("/api/users"));
    assert!(!p.is_match("/index.html"));
    assert!(!p.is_match("/v2/api/users"));
}

#[test]
fn pattern_is_not_matched_as_plain_text() {
    // The source is an expression: the text equal to the source need not match.
    let p = Pattern::new("^a+$").unwrap();
    assert!(p.is_match("aaa"));
    assert!(!p.is_match("^a+$"));
}

#[test]
fn pattern_clone_keeps_the_source() {
    let p = Pattern::new(r"\.(css|js)$").unwrap();
    let q = p.clone();
    assert_eq!(q.as_str(), r"\.(css|js)$");
    assert!(q.is_match("/static/site.css"));
    assert!(!q.is_match("/static/site.png"));
}
