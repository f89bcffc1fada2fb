use check_broken_packages::discovery::{
    blacklisted_exe_dirs, discover_executables, is_blacklisted_path, is_executable_entry, owned_paths,
    FileKind, FileStat, PathProbe,
};

fn stat(kind: FileKind, mode: u32) -> Option<FileStat> {
    Some(FileStat { kind, mode })
}

fn probe(path: &str, entry: Option<FileStat>, link_target: Option<FileStat>) -> PathProbe {
    PathProbe { path: path.to_string(), entry, link_target }
}

#[test]
fn listing_lines_give_paths() {
    let listing = "foo /usr/\nfoo /usr/bin/\nfoo /usr/bin/foo\nfoo /usr/share/foo/My File.txt\nbroken\n";
    assert_eq!(
        owned_paths(listing),
        ["/usr/", "/usr/bin/", "/usr/bin/foo", "/usr/share/foo/My File.txt"]
    );
    assert!(owned_paths("").is_empty());
}

#[test]
fn executable_entries() {
    assert!(is_executable_entry(stat(FileKind::Regular, 0o755), None));
    assert!(is_executable_entry(stat(FileKind::Regular, 0o100), None));
    assert!(is_executable_entry(stat(FileKind::Regular, 0o001), None));
    assert!(!is_executable_entry(stat(FileKind::Regular, 0o644), None));
    assert!(!is_executable_entry(stat(FileKind::Directory, 0o755), None));
    assert!(!is_executable_entry(None, None));
}

#[test]
fn links_followed_one_hop_only() {
    let link = stat(FileKind::Symlink, 0o777);
    assert!(is_executable_entry(link, stat(FileKind::Regular, 0o755)));
    assert!(!is_executable_entry(link, stat(FileKind::Regular, 0o644)));
    assert!(!is_executable_entry(link, stat(FileKind::Symlink, 0o777)));
    assert!(!is_executable_entry(link, None));
}

#[test]
fn default_blacklist() {
    let bl = blacklisted_exe_dirs();
    assert_eq!(bl, ["/opt/", "/usr/share/"]);
    assert!(is_blacklisted_path("/opt/foo/bin/foo", &bl));
    assert!(is_blacklisted_path("/usr/share/foo/run.sh", &bl));
    assert!(!is_blacklisted_path("/usr/bin/foo", &bl));
    assert!(!is_blacklisted_path("/optical/foo", &bl));
    assert!(!is_blacklisted_path("/opt", &bl));
    assert!(!is_blacklisted_path("/usr/bin/foo", &Vec::new()));
}

#[test]
fn discovery_keeps_executables_outside_blacklist() {
    let bl = blacklisted_exe_dirs();
    let probes = vec![
        probe("/usr/bin/", stat(FileKind::Directory, 0o755), None),
        probe("/usr/bin/foo", stat(FileKind::Regular, 0o755), None),
        probe("/usr/lib/libfoo.so", stat(FileKind::Regular, 0o644), None),
        probe("/opt/foo/bin/foo", stat(FileKind::Regular, 0o755), None),
        probe("/usr/bin/foo-link", stat(FileKind::Symlink, 0o777), stat(FileKind::Regular, 0o755)),
        probe("/usr/bin/gone", None, None),
        probe("/usr/share/foo/run.sh", stat(FileKind::Regular, 0o755), None),
    ];
    assert_eq!(discover_executables(&probes, &bl), ["/usr/bin/foo", "/usr/bin/foo-link"]);
    assert!(discover_executables(&Vec::new(), &bl).is_empty());
}

#[test]
fn discovery_twice_gives_same_set() {
    let bl = blacklisted_exe_dirs();
    let make = || {
        vec![
            probe("/usr/bin/a", stat(FileKind::Regular, 0o755), None),
            probe("/usr/bin/b", stat(FileKind::Regular, 0o700), None),
            probe("/usr/bin/c", stat(FileKind::Regular, 0o600), None),
        ]
    };
    let first = discover_executables(&make(), &bl);
    let second = discover_executables(&make(), &bl);
    assert_eq!(first, second);
    let mut reordered = make();
    reordered.reverse();
    let mut third = discover_executables(&reordered, &bl);
    third.sort();
    assert_eq!(first, third);
}
