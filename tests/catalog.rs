use system_manager::catalog::{build_catalog, Catalog};
use system_manager::error::{ErrorKind, ProcessError};

fn strings(v: &[&str]) -> Vec<String> {
    v.iter().map(|s| s.to_string()).collect()
}

fn spawn_failure() -> ProcessError {
    ProcessError::new(ErrorKind::SpawnFailure, "dnf: not found".to_string())
}

#[test]
fn catalog_of_two_repositories() {
    let repos = strings(&["A", "B"]);
    let outcomes = vec![Ok("p1\np2\n".to_string()), Ok("p3\n".to_string())];
    let report = build_catalog(&repos, &outcomes);
    assert!(report.failures.is_empty());
    let c = &report.catalog;
    assert_eq!(c.len(), 2);
    assert_eq!(c.get(&"A".to_string()), Some(&strings(&["p1", "p2"])));
    assert_eq!(c.get(&"B".to_string()), Some(&strings(&["p3"])));
}

#[test]
fn catalog_regardless_of_query_order() {
    let repos = strings(&["B", "A"]);
    let outcomes = vec![Ok("p3\n".to_string()), Ok("p1\np2\n".to_string())];
    let c = build_catalog(&repos, &outcomes).catalog;
    assert_eq!(c.len(), 2);
    assert_eq!(c.get(&"A".to_string()), Some(&strings(&["p1", "p2"])));
    assert_eq!(c.get(&"B".to_string()), Some(&strings(&["p3"])));
    assert_eq!(c.repositories(), &strings(&["B", "A"]));
}

#[test]
fn failed_query_is_left_out() {
    let repos = strings(&["A", "B", "C"]);
    let outcomes = vec![
        Ok("a1\n".to_string()),
        Err(spawn_failure()),
        Ok("c1\nc2\n".to_string()),
    ];
    let report = build_catalog(&repos, &outcomes);
    let c = &report.catalog;
    assert_eq!(c.len(), 2);
    assert_eq!(c.get(&"A".to_string()), Some(&strings(&["a1"])));
    assert_eq!(c.get(&"B".to_string()), None);
    assert_eq!(c.get(&"C".to_string()), Some(&strings(&["c1", "c2"])));
    assert_eq!(report.failures.len(), 1);
    assert_eq!(report.failures[0].repository, "B");
    assert_eq!(report.failures[0].cause.kind, ErrorKind::SpawnFailure);
    assert_eq!(report.failures[0].cause.reason, "dnf: not found");
}

#[test]
fn decode_failure_is_recorded_too() {
    let repos = strings(&["A"]);
    let outcomes = vec![Err(ProcessError::new(ErrorKind::DecodeFailure, "bad bytes".to_string()))];
    let report = build_catalog(&repos, &outcomes);
    assert_eq!(report.catalog.len(), 0);
    assert_eq!(report.failures[0].cause.kind, ErrorKind::DecodeFailure);
}

#[test]
fn repository_listed_twice_keeps_last_success() {
    let repos = strings(&["A", "B", "A", "B"]);
    let outcomes = vec![
        Ok("old\n".to_string()),
        Ok("b\n".to_string()),
        Ok("new\n".to_string()),
        Err(spawn_failure()),
    ];
    let report = build_catalog(&repos, &outcomes);
    let c = &report.catalog;
    assert_eq!(c.len(), 2);
    assert_eq!(c.get(&"A".to_string()), Some(&strings(&["new"])));
    assert_eq!(c.get(&"B".to_string()), Some(&strings(&["b"])));
    assert_eq!(c.repositories(), &strings(&["A", "B"]));
    assert_eq!(report.failures.len(), 1);
}

#[test]
fn empty_repository_has_empty_list() {
    let repos = strings(&["A"]);
    let c = build_catalog(&repos, &vec![Ok(String::new())]).catalog;
    assert_eq!(c.get(&"A".to_string()), Some(&Vec::new()));
}

#[test]
fn catalog_insert_and_replace() {
    let mut c = Catalog::new();
    assert_eq!(c.len(), 0);
    c.insert("x".to_string(), strings(&["1"]));
    c.insert("y".to_string(), strings(&["2"]));
    c.insert("x".to_string(), strings(&["3"]));
    assert_eq!(c.len(), 2);
    assert_eq!(c.get(&"x".to_string()), Some(&strings(&["3"])));
    assert_eq!(c.repositories(), &strings(&["x", "y"]));
    assert_eq!(c.get(&"z".to_string()), None);
}
