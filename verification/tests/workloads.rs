use har_bench::capture::{read_capture, RequestRecord};
use har_bench::rules::{parse_category, Category};
use har_bench::workload::{partition, CategoryBucket, Workload};

fn records(paths: &[&str]) -> Vec<RequestRecord> {
    paths.iter().map(|p| RequestRecord { path: p.to_string() }).collect()
}

fn strings(items: &[&str]) -> Vec<String> {
    items.iter().map(|s| s.to_string()).collect()
}

fn api_and_static() -> Vec<Category> {
    parse_category(r#"[{"name": "api", "regex": "^/api/"}, {"name": "static", "nregex": "^/api/"}]"#)
        .unwrap()
}

#[test]
fn workload_groups_paths_by_rule_and_keeps_their_order() {
    let rules = api_and_static();
    let workload = Workload::build(
        "session.har",
        &rules,
        &records(&["/api/users", "/index.html", "/api/orders"]),
    );
    assert_eq!(
        workload,
        Workload {
            source_name: "session.har".to_string(),
            buckets: vec![
                CategoryBucket {
                    rule_name: "api".to_string(),
                    paths: strings(&["/api/users", "/api/orders"]),
                },
                CategoryBucket {
                    rule_name: "static".to_string(),
                    paths: strings(&["/index.html"]),
                },
            ],
        }
    );
}

#[test]
fn path_that_matches_no_rule_is_left_out_without_error() {
    let rules = parse_category(r#"[{"name": "only", "regex": "^/x/"}]"#).unwrap();
    let (workload, skipped) = partition("c", &rules, &records(&["/y/"]));
    assert_eq!(workload.buckets.len(), 1);
    assert_eq!(workload.buckets[0].rule_name, "only");
    assert!(workload.buckets[0].paths.is_empty());
    assert_eq!(skipped, strings(&["/y/"]));
}

#[test]
fn empty_capture_gives_one_empty_bucket_per_rule() {
    let rules = api_and_static();
    let records = read_capture(r#"{"log": {"entries": []}}"#).unwrap();
    let (workload, skipped) = partition("empty.har", &rules, &records);
    assert_eq!(workload.source_name, "empty.har");
    assert_eq!(workload.buckets.len(), 2);
    assert_eq!(workload.buckets[0].rule_name, "api");
    assert_eq!(workload.buckets[1].rule_name, "static");
    assert!(workload.buckets[0].paths.is_empty());
    assert!(workload.buckets[1].paths.is_empty());
    assert!(skipped.is_empty());
}

#[test]
fn workload_without_rules_has_no_buckets_and_skips_everything() {
    let rules: Vec<Category> = Vec::new();
    let (workload, skipped) = partition("c", &rules, &records(&["/a", "/b"]));
    assert!(workload.buckets.is_empty());
    assert_eq!(skipped, strings(&["/a", "/b"]));
}

#[test]
fn skipped_paths_keep_the_order_of_the_capture() {
    let rules = parse_category(r#"[{"name": "api", "regex": "^/api/"}]"#).unwrap();
    let (workload, skipped) =
        partition("c", &rules, &records(&["/z", "/api/1", "/a", "/api/2", "/z"]));
    assert_eq!(workload.buckets[0].paths, strings(&["/api/1", "/api/2"]));
    assert_eq!(skipped, strings(&["/z", "/a", "/z"]));
}

#[test]
fn bucket_order_is_capture_order_not_rule_order() {
    let rules = parse_category(
        r#"[{"name": "detail", "regex": "^/items/\\d+$"}, {"name": "list", "regex": "^/items$"}, {"name": "rest"}]"#,
    )
    .unwrap();
    let workload = Workload::build(
        "c",
        &rules,
        &records(&["/items", "/items/2", "/", "/items/1", "/items", "/items/2"]),
    );
    assert_eq!(workload.buckets[0].paths, strings(&["/items/2", "/items/1", "/items/2"]));
    assert_eq!(workload.buckets[1].paths, strings(&["/items", "/items"]));
    assert_eq!(workload.buckets[2].paths, strings(&["/"]));
}

#[test]
fn every_path_lands_in_one_place() {
    let rules = parse_category(
        r#"[{"name": "api", "regex": "^/api/"}, {"name": "img", "regex": "\\.png$"}]"#,
    )
    .unwrap();
    let all = ["/api/a.png", "/b.png", "/c", "/api/d", "/e.png", "/f"];
    let (workload, skipped) = partition("c", &rules, &records(&all));
    let placed: usize = workload.buckets.iter().map(|b| b.paths.len()).sum();
    assert_eq!(placed + skipped.len(), all.len());
    assert_eq!(workload.buckets[0].paths, strings(&["/api/a.png", "/api/d"]));
    assert_eq!(workload.buckets[1].paths, strings(&["/b.png", "/e.png"]));
    assert_eq!(skipped, strings(&["/c", "/f"]));
}

#[test]
fn trailing_catch_all_leaves_nothing_out() {
    let rules =
        parse_category(r#"[{"name": "api", "regex": "^/api/"}, {"name": "rest"}]"#).unwrap();
    let (workload, skipped) = partition("c", &rules, &records(&["/x", "/api/y", "", "/z"]));
    assert!(skipped.is_empty());
    assert_eq!(workload.buckets[0].paths, strings(&["/api/y"]));
    assert_eq!(workload.buckets[1].paths, strings(&["/x", "", "/z"]));
}

#[test]
fn build_is_the_workload_of_partition() {
    let rules = api_and_static();
    let recs = records(&["/api/users", "/index.html"]);
    let (workload, _) = partition("c", &rules, &recs);
    assert_eq!(Workload::build("c", &rules, &recs), workload);
}

#[test]
fn empty_workload_has_named_buckets() {
    let rules = api_and_static();
    let workload = Workload::empty("c", &rules);
    assert_eq!(
        workload,
        Workload {
            source_name: "c".to_string(),
            buckets: vec![
                CategoryBucket { rule_name: "api".to_string(), paths: vec![] },
                CategoryBucket { rule_name: "static".to_string(), paths: vec![] },
            ],
        }
    );
}

#[test]
fn assign_appends_to_the_bucket_at_the_position() {
    let rules = api_and_static();
    let mut workload = Workload::empty("c", &rules);
    assert!(workload.assign(1, "/a"));
    assert!(workload.assign(0, "/b"));
    assert!(workload.assign(1, "/c"));
    assert_eq!(workload.buckets[0].paths, strings(&["/b"]));
    assert_eq!(workload.buckets[1].paths, strings(&["/a", "/c"]));
    assert_eq!(workload.buckets[0].rule_name, "api");
    assert_eq!(workload.source_name, "c");
}

#[test]
fn assign_past_the_last_bucket_changes_nothing() {
    let rules = api_and_static();
    let mut workload = Workload::empty("c", &rules);
    assert!(!workload.assign(2, "/a"));
    assert!(!workload.assign(usize::MAX, "/a"));
    assert_eq!(workload, Workload::empty("c", &rules));
}

#[test]
fn same_capture_gives_the_same_workload() {
    let rules = api_and_static();
    let recs = records(&["/api/users", "/index.html", "/api/orders"]);
    assert_eq!(Workload::build("c", &rules, &recs), Workload::build("c", &rules, &recs));
}
