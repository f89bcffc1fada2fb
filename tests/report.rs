use std::sync::Arc;

use check_broken_packages::pipeline::MissingDependencyRecord;
use check_broken_packages::report::{
    broken_link_line, missing_dependency_line, report_lines, stale_package_line,
};
use check_broken_packages::stale::StalePackageRecord;

fn record(package: &str, file: &str, dependency: &str) -> MissingDependencyRecord {
    MissingDependencyRecord {
        package: Arc::new(package.to_string()),
        file: Arc::new(file.to_string()),
        dependency: dependency.to_string(),
    }
}

#[test]
fn missing_dependency_text() {
    assert_eq!(
        missing_dependency_line(&record("foo", "/usr/bin/foo", "libfoo.so.1")),
        "File \"/usr/bin/foo\" from package \"foo\" is missing dependency \"libfoo.so.1\""
    );
}

#[test]
fn quotes_are_escaped() {
    assert_eq!(
        broken_link_line("/etc/a \"b\"\n"),
        "Systemd enabled service has broken link in \"/etc/a \\\"b\\\"\\n\""
    );
}

#[test]
fn stale_package_text() {
    let r = StalePackageRecord { package: "foo".to_string(), directory: "/usr/lib/python3.11".to_string() };
    assert_eq!(
        stale_package_line(&r),
        "Package \"foo\" has files in directory \"/usr/lib/python3.11\" that are ignored by the current Python interpreter"
    );
}

#[test]
fn report_order() {
    let missing = vec![record("foo", "/usr/bin/foo", "liba.so"), record("bar", "/usr/bin/bar", "libb.so")];
    let stale = vec![StalePackageRecord { package: "baz".to_string(), directory: "/usr/lib/python3.11".to_string() }];
    let broken = vec!["/etc/systemd/system/multi-user.target.wants/x.service".to_string()];
    let lines = report_lines(&missing, &stale, &broken);
    assert_eq!(lines.len(), 4);
    assert!(lines[0].contains("liba.so"));
    assert!(lines[1].contains("libb.so"));
    assert!(lines[2].starts_with("Package \"baz\""));
    assert!(lines[3].starts_with("Systemd enabled service"));
    assert!(report_lines(&Vec::new(), &Vec::new(), &Vec::new()).is_empty());
}
