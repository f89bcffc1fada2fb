use std::sync::Arc;

use check_broken_packages::pipeline::{
    check_progress, discovery_progress, file_records, package_work_items,
};

fn strings(items: &[&str]) -> Vec<String> {
    items.iter().map(|s| s.to_string()).collect()
}

#[test]
fn package_without_files_counts_once_at_discovery() {
    let package = Arc::new("foo".to_string());
    let items = package_work_items(&package, Vec::new());
    assert!(items.is_empty());
    assert_eq!(discovery_progress(&items), 1);
}

#[test]
fn package_with_files_counts_once_at_last_file() {
    let package = Arc::new("foo".to_string());
    let items = package_work_items(&package, strings(&["/usr/bin/a", "/usr/bin/b", "/usr/bin/c"]));
    assert_eq!(items.len(), 3);
    assert_eq!(discovery_progress(&items), 0);
    let per_file: Vec<u64> = items.iter().map(check_progress).collect();
    assert_eq!(per_file, [0, 0, 1]);
    let total: u64 = discovery_progress(&items) + per_file.iter().sum::<u64>();
    assert_eq!(total, 1);
    assert_eq!(items[1].path.as_str(), "/usr/bin/b");
    assert!(items.iter().all(|i| i.package.as_str() == "foo"));
    assert!(Arc::ptr_eq(&items[0].package, &package));
}

#[test]
fn single_file_package_is_last_at_once() {
    let package = Arc::new("bar".to_string());
    let items = package_work_items(&package, strings(&["/usr/bin/bar"]));
    assert!(items[0].is_last_for_package);
    assert_eq!(discovery_progress(&items) + check_progress(&items[0]), 1);
}

#[test]
fn records_name_package_file_and_library() {
    let package = Arc::new("foo".to_string());
    let items = package_work_items(&package, strings(&["/usr/bin/foo"]));
    let records = file_records(&items[0], strings(&["liba.so.1", "libb.so.2"]));
    assert_eq!(records.len(), 2);
    assert_eq!(records[0].package.as_str(), "foo");
    assert_eq!(records[0].file.as_str(), "/usr/bin/foo");
    assert_eq!(records[0].dependency, "liba.so.1");
    assert_eq!(records[1].dependency, "libb.so.2");
    assert!(file_records(&items[0], Vec::new()).is_empty());
}
