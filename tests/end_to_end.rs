use std::sync::Arc;

use check_broken_packages::discovery::{
    blacklisted_exe_dirs, discover_executables, owned_paths, FileKind, FileStat, PathProbe,
};
use check_broken_packages::linker::missing_dependencies;
use check_broken_packages::pipeline::{
    check_progress, discovery_progress, file_records, package_work_items,
};
use check_broken_packages::report::report_lines;

fn probe_for(path: &str) -> PathProbe {
    let entry = if path == "/usr/bin/foo" {
        Some(FileStat { kind: FileKind::Regular, mode: 0o755 })
    } else {
        Some(FileStat { kind: FileKind::Directory, mode: 0o755 })
    };
    PathProbe { path: path.to_string(), entry, link_target: None }
}

#[test]
fn one_package_one_missing_library() {
    let package = Arc::new("foo".to_string());
    let listing = "foo /usr/\nfoo /usr/bin/\nfoo /usr/bin/foo\n";
    let probes: Vec<PathProbe> = owned_paths(listing).iter().map(|p| probe_for(p)).collect();
    let files = discover_executables(&probes, &blacklisted_exe_dirs());
    let items = package_work_items(&package, files);
    let mut progress = discovery_progress(&items);
    let mut records = Vec::new();
    for item in &items {
        let ldd = "\tlinux-vdso.so.1 (0x00007ffea89a7000)\n\tlibfoo.so.1 => not found\n\tlibc.so.6 => /usr/lib/libc.so.6 (0x00007f4bd9add000)\n";
        records.extend(file_records(item, missing_dependencies(ldd, true)));
        progress += check_progress(item);
    }
    assert_eq!(progress, 1);
    assert_eq!(records.len(), 1);
    assert_eq!(records[0].package.as_str(), "foo");
    assert_eq!(records[0].file.as_str(), "/usr/bin/foo");
    assert_eq!(records[0].dependency, "libfoo.so.1");
    let lines = report_lines(&records, &Vec::new(), &Vec::new());
    assert_eq!(
        lines,
        ["File \"/usr/bin/foo\" from package \"foo\" is missing dependency \"libfoo.so.1\""]
    );
}

#[test]
fn blacklisted_file_yields_no_record() {
    let package = Arc::new("vendor".to_string());
    let probes = vec![PathProbe {
        path: "/opt/vendor/bin/tool".to_string(),
        entry: Some(FileStat { kind: FileKind::Regular, mode: 0o755 }),
        link_target: None,
    }];
    let items = package_work_items(&package, discover_executables(&probes, &blacklisted_exe_dirs()));
    assert!(items.is_empty());
    assert_eq!(discovery_progress(&items), 1);
}
