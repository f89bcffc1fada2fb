use check_broken_packages::version::{
    parse_byte, parse_version, parse_version_output, PythonPackageVersion, VersionError,
};

fn v(major: u8, minor: u8, release: u8, package: u8) -> PythonPackageVersion {
    PythonPackageVersion { major, minor, release, package }
}

#[test]
fn full_version_parses() {
    assert_eq!(parse_version("1.2.3-4"), Ok(v(1, 2, 3, 4)));
    assert_eq!(parse_version("3.11.5-1"), Ok(v(3, 11, 5, 1)));
}

#[test]
fn version_without_release_fails() {
    assert_eq!(parse_version("1.2"), Err(VersionError::MissingRelease));
}

#[test]
fn version_without_package_release_fails() {
    assert_eq!(parse_version("1.2.3"), Err(VersionError::MissingPackage));
}

#[test]
fn version_other_errors() {
    assert_eq!(parse_version("1"), Err(VersionError::MissingMinor));
    assert_eq!(parse_version(""), Err(VersionError::InvalidNumber));
    assert_eq!(parse_version("x.2.3-4"), Err(VersionError::InvalidNumber));
    assert_eq!(parse_version("1.2.3-x"), Err(VersionError::InvalidNumber));
    assert_eq!(parse_version("256.2.3-4"), Err(VersionError::InvalidNumber));
    assert_eq!(parse_version("1.2.3-4 "), Err(VersionError::InvalidNumber));
}

#[test]
fn version_extra_parts_are_ignored() {
    assert_eq!(parse_version("1.2.3-4-5"), Ok(v(1, 2, 3, 4)));
    assert_eq!(parse_version("1.2.3-4.7"), Ok(v(1, 2, 3, 4)));
    assert_eq!(parse_version("255.0.007-+9"), Ok(v(255, 0, 7, 9)));
}

#[test]
fn byte_parsing_follows_decimal_rules() {
    let chars = |s: &str| s.chars().collect::<Vec<char>>();
    assert_eq!(parse_byte(&chars("0")), Some(0));
    assert_eq!(parse_byte(&chars("+42")), Some(42));
    assert_eq!(parse_byte(&chars("255")), Some(255));
    assert_eq!(parse_byte(&chars("0000000000255")), Some(255));
    assert_eq!(parse_byte(&chars("256")), None);
    assert_eq!(parse_byte(&chars("99999999999")), None);
    assert_eq!(parse_byte(&chars("-1")), None);
    assert_eq!(parse_byte(&chars("+")), None);
    assert_eq!(parse_byte(&chars("")), None);
    for n in 0..=255u8 {
        assert_eq!(parse_byte(&chars(&n.to_string())), Some(n));
    }
}

#[test]
fn version_read_from_metadata() {
    let output = "Name            : python\nVersion         : 3.12.7-1\nDescription     : x\n";
    assert_eq!(parse_version_output(output), Ok(v(3, 12, 7, 1)));
}

#[test]
fn metadata_errors() {
    assert_eq!(parse_version_output("Name : python\n"), Err(VersionError::NoVersionLine));
    assert_eq!(parse_version_output(""), Err(VersionError::NoVersionLine));
    assert_eq!(parse_version_output("Version 3.12.7-1\n"), Err(VersionError::NoVersionValue));
    assert_eq!(parse_version_output("Version : 3.12\n"), Err(VersionError::MissingRelease));
}

#[test]
fn first_version_line_wins() {
    let output = "Version : 3.12.7-1\nVersion : 2.7.18-9\n";
    assert_eq!(parse_version_output(output), Ok(v(3, 12, 7, 1)));
}

#[test]
fn version_written_back() {
    assert_eq!(v(3, 11, 5, 1).to_string(), "3.11.5-1");
    assert_eq!(v(0, 100, 255, 10).to_string(), "0.100.255-10");
    for major in [0u8, 9, 10, 99, 100, 255] {
        let text = v(major, 2, 3, 4).to_string();
        assert_eq!(parse_version(&text), Ok(v(major, 2, 3, 4)));
    }
}
