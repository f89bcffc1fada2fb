use check_broken_packages::linker::{dependency_name, is_missing_dependency_line, missing_dependencies};

const LDD_OUTPUT: &str = "	linux-vdso.so.1 (0x00007ffea89a7000)
	libavdevice.so.57 => not found
	libavfilter.so.6 => not found
	libavformat.so.57 => not found
	libavcodec.so.57 => not found
	libavresample.so.3 => not found
	libpostproc.so.54 => not found
	libswresample.so.2 => not found
	libswscale.so.4 => not found
	libavutil.so.55 => not found
	libm.so.6 => /usr/lib/libm.so.6 (0x00007f4bd9cc3000)
	libpthread.so.0 => /usr/lib/libpthread.so.0 (0x00007f4bd9ca2000)
	libc.so.6 => /usr/lib/libc.so.6 (0x00007f4bd9add000)
	/lib64/ld-linux-x86-64.so.2 => /usr/lib64/ld-linux-x86-64.so.2 (0x00007f4bda08d000)
";

#[test]
fn test_get_missing_dependencies() {
    let missing_deps = missing_dependencies(LDD_OUTPUT, true);
    assert_eq!(
        missing_deps,
        [
            "libavdevice.so.57",
            "libavfilter.so.6",
            "libavformat.so.57",
            "libavcodec.so.57",
            "libavresample.so.3",
            "libpostproc.so.54",
            "libswresample.so.2",
            "libswscale.so.4",
            "libavutil.so.55",
        ]
    );
}

#[test]
fn failed_linker_run_reports_nothing() {
    assert!(missing_dependencies(LDD_OUTPUT, false).is_empty());
}

#[test]
fn empty_linker_output_reports_nothing() {
    assert!(missing_dependencies("", true).is_empty());
}

#[test]
fn line_classified_by_exact_suffix() {
    assert!(is_missing_dependency_line("\tlibfoo.so.1 => not found"));
    assert!(is_missing_dependency_line("=> not found"));
    assert!(!is_missing_dependency_line("\tlibfoo.so.1 => not found "));
    assert!(!is_missing_dependency_line("\tlibfoo.so.1 => Not found"));
    assert!(!is_missing_dependency_line("\tlibm.so.6 => /usr/lib/libm.so.6 (0x00007f4bd9cc3000)"));
    assert!(!is_missing_dependency_line("> not found"));
    assert!(!is_missing_dependency_line(""));
}

#[test]
fn name_is_first_token_without_leading_white_space() {
    assert_eq!(dependency_name("\tlibfoo.so.1 => not found"), "libfoo.so.1");
    assert_eq!(dependency_name("\t\u{a0}libbar.so => not found"), "libbar.so");
    assert_eq!(dependency_name("libbaz.so"), "libbaz.so");
    assert_eq!(dependency_name(" libqux.so => not found"), "");
}

#[test]
fn carriage_returns_and_last_line_without_newline() {
    let output = "\tliba.so.1 => not found\r\n\tlibb.so.2 => not found";
    assert_eq!(missing_dependencies(output, true), ["liba.so.1", "libb.so.2"]);
    let output = "\tliba.so.1 => not found\r";
    assert!(missing_dependencies(output, true).is_empty());
}
