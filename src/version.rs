//! The installed Python interpreter's package version.
use vstd::prelude::*;

use crate::text::{
    after_char, before_char, chars_of, decimal_digits, decimal_u8, has_prefix, lines_of,
    split_lines, split_once, starts_with_chars, trim_start, trim_start_chars, views,
};

verus! {

/// A package version `MAJOR.MINOR.RELEASE-PKGREL`.
#[derive(Clone, Copy, Debug, PartialEq, Eq, Structural)]
pub struct PythonPackageVersion {
    pub major: u8,
    pub minor: u8,
    pub release: u8,
    pub package: u8,
}

/// Why the version could not be read.
#[derive(Clone, Copy, Debug, PartialEq, Eq, Structural)]
pub enum VersionError {
    /// No line of the metadata starts with `Version`.
    NoVersionLine,
    /// The version line has no `:` before its value.
    NoVersionValue,
    /// The value has no `.` after the major part.
    MissingMinor,
    /// The value has no second `.` before the release part.
    MissingRelease,
    /// The release part has no `-` before the package release.
    MissingPackage,
    /// A part is not a decimal number from 0 to 255.
    InvalidNumber,
}

/// A decimal digit.
pub open spec fn is_digit(c: char) -> bool {
    '0' <= c <= '9'
}

/// Every character is a decimal digit.
pub open spec fn all_digits(d: Seq<char>) -> bool {
    forall|i: int| 0 <= i < d.len() ==> is_digit(#[trigger] d[i])
}

/// The number that a string of decimal digits writes.
pub open spec fn decimal_value(d: Seq<char>) -> nat
    decreases d.len(),
{
    if d.len() == 0 {
        0
    } else {
        decimal_value(d.drop_last()) * 10 + (d.last() as nat - '0' as nat) as nat
    }
}

/// A byte written in decimal, with an optional leading `+`.
pub open spec fn byte_of(s: Seq<char>) -> Option<u8> {
    let d = if s.len() > 0 && s[0] == '+' {
        s.drop_first()
    } else {
        s
    };
    if d.len() > 0 && all_digits(d) && decimal_value(d) < 256 {
        Some(decimal_value(d) as u8)
    } else {
        None
    }
}

/// The version that a value such as `3.11.5-1` writes: major and minor end
/// at a `.`, the release at a `-`; the package release ends at the next `-`
/// or `.`, if any.
pub open spec fn version_of(v: Seq<char>) -> Result<PythonPackageVersion, VersionError> {
    match byte_of(before_char(v, '.')) {
        None => Err(VersionError::InvalidNumber),
        Some(major) => match after_char(v, '.') {
            None => Err(VersionError::MissingMinor),
            Some(r1) => match byte_of(before_char(r1, '.')) {
                None => Err(VersionError::InvalidNumber),
                Some(minor) => match after_char(r1, '.') {
                    None => Err(VersionError::MissingRelease),
                    Some(r2) => {
                        let third = before_char(r2, '.');
                        match byte_of(before_char(third, '-')) {
                            None => Err(VersionError::InvalidNumber),
                            Some(release) => match after_char(third, '-') {
                                None => Err(VersionError::MissingPackage),
                                Some(r3) => match byte_of(before_char(r3, '-')) {
                                    None => Err(VersionError::InvalidNumber),
                                    Some(package) => Ok(
                                        PythonPackageVersion { major, minor, release, package },
                                    ),
                                },
                            },
                        }
                    },
                },
            },
        },
    }
}

/// The key of the metadata line that gives the version.
pub open spec fn version_key() -> Seq<char> {
    seq!['V', 'e', 'r', 's', 'i', 'o', 'n']
}

/// The first line that starts with `Version`.
pub open spec fn first_version_line(lines: Seq<Seq<char>>) -> Option<Seq<char>>
    decreases lines.len(),
{
    if lines.len() == 0 {
        None
    } else if has_prefix(lines[0], version_key()) {
        Some(lines[0])
    } else {
        first_version_line(lines.drop_first())
    }
}

/// The value of a `Key: Value` line: what lies between its first and second
/// `:`, without leading white space.
pub open spec fn field_value(line: Seq<char>) -> Option<Seq<char>> {
    match after_char(line, ':') {
        None => None,
        Some(rest) => Some(trim_start(before_char(rest, ':'))),
    }
}

/// The version that package metadata gives on its `Version` line.
pub open spec fn version_in_metadata(output: Seq<char>) -> Result<
    PythonPackageVersion,
    VersionError,
> {
    match first_version_line(lines_of(output)) {
        None => Err(VersionError::NoVersionLine),
        Some(line) => match field_value(line) {
            None => Err(VersionError::NoVersionValue),
            Some(v) => version_of(v),
        },
    }
}

/// How a version is written: `MAJOR.MINOR.RELEASE-PKGREL`.
pub open spec fn version_text(v: PythonPackageVersion) -> Seq<char> {
    decimal_digits(v.major as nat) + seq!['.'] + decimal_digits(v.minor as nat) + seq!['.']
        + decimal_digits(v.release as nat) + seq!['-'] + decimal_digits(v.package as nat)
}

proof fn lemma_decimal_prefix(d: Seq<char>, k: int)
    requires
        all_digits(d),
        0 <= k <= d.len(),
    ensures
        decimal_value(d.take(k)) <= decimal_value(d),
    decreases d.len(),
{
    if k < d.len() {
        let p = d.drop_last();
        assert(all_digits(p)) by {
            assert forall|i: int| 0 <= i < p.len() implies is_digit(#[trigger] p[i]) by {
                assert(p[i] == d[i]);
            }
        }
        lemma_decimal_prefix(p, k);
        assert(p.take(k) =~= d.take(k));
    } else {
        assert(d.take(k) =~= d);
    }
}

proof fn lemma_first_version_line(lines: Seq<Seq<char>>, i: int)
    requires
        0 <= i <= lines.len(),
        forall|j: int| 0 <= j < i ==> !has_prefix(#[trigger] lines[j], version_key()),
    ensures
        first_version_line(lines) == first_version_line(lines.skip(i)),
    decreases i,
{
    if i > 0 {
        lemma_first_version_line(lines.drop_first(), i - 1);
        assert(lines.drop_first().skip(i - 1) =~= lines.skip(i));
    } else {
        assert(lines.skip(0) =~= lines);
    }
}

/// A byte written in decimal, as `byte_of` reads it.
pub fn parse_byte(s: &Vec<char>) -> (r: Option<u8>)
    ensures
        r == byte_of(s@),
{
    let start: usize = if s.len() > 0 && s[0] == '+' {
        1
    } else {
        0
    };
    let ghost d = s@.skip(start as int);
    proof {
        if start == 1 {
            assert(d =~= s@.drop_first());
        } else {
            assert(d =~= s@);
        }
    }
    if start == s.len() {
        return None;
    }
    let mut acc: u32 = 0;
    let mut i: usize = start;
    while i < s.len()
        invariant
            start <= i <= s.len(),
            d == s@.skip(start as int),
            d == (if s@.len() > 0 && s@[0] == '+' {
                s@.drop_first()
            } else {
                s@
            }),
            all_digits(d.take(i - start)),
            acc as nat == decimal_value(d.take(i - start)),
            acc <= 255,
        decreases s.len() - i,
    {
        let c = s[i];
        proof {
            assert(d.take(i - start + 1).drop_last() =~= d.take(i - start));
            assert(d[i - start] == c);
        }
        if c < '0' || c > '9' {
            proof {
                assert(!is_digit(d[i - start]));
                assert(!all_digits(d));
                assert(byte_of(s@) is None);
            }
            return None;
        }
        acc = acc * 10 + (c as u32 - '0' as u32);
        proof {
            assert(decimal_value(d.take(i - start + 1)) == decimal_value(d.take(i - start)) * 10
                + (c as nat - '0' as nat) as nat);
            assert(all_digits(d.take(i - start + 1))) by {
                assert forall|j: int| 0 <= j < i - start + 1 implies is_digit(
                    #[trigger] d.take(i - start + 1)[j],
                ) by {
                    if j < i - start {
                        assert(d.take(i - start + 1)[j] == d.take(i - start)[j]);
                    }
                }
            }
        }
        if acc > 255 {
            proof {
                if all_digits(d) {
                    lemma_decimal_prefix(d, i - start + 1);
                }
                assert(byte_of(s@) is None);
            }
            return None;
        }
        i = i + 1;
    }
    proof {
        assert(d.take(i - start) =~= d);
    }
    Some(acc as u8)
}

fn version_from_chars(v: &Vec<char>) -> (r: Result<PythonPackageVersion, VersionError>)
    ensures
        r == version_of(v@),
{
    let (major_s, r1) = split_once(v, '.');
    let major = match parse_byte(&major_s) {
        None => return Err(VersionError::InvalidNumber),
        Some(x) => x,
    };
    let r1 = match r1 {
        None => return Err(VersionError::MissingMinor),
        Some(x) => x,
    };
    let (minor_s, r2) = split_once(&r1, '.');
    let minor = match parse_byte(&minor_s) {
        None => return Err(VersionError::InvalidNumber),
        Some(x) => x,
    };
    let r2 = match r2 {
        None => return Err(VersionError::MissingRelease),
        Some(x) => x,
    };
    let (third, _rest) = split_once(&r2, '.');
    let (release_s, r3) = split_once(&third, '-');
    let release = match parse_byte(&release_s) {
        None => return Err(VersionError::InvalidNumber),
        Some(x) => x,
    };
    let r3 = match r3 {
        None => return Err(VersionError::MissingPackage),
        Some(x) => x,
    };
    let (package_s, _rest) = split_once(&r3, '-');
    let package = match parse_byte(&package_s) {
        None => return Err(VersionError::InvalidNumber),
        Some(x) => x,
    };
    Ok(PythonPackageVersion { major, minor, release, package })
}

/// Reads a version value such as `3.11.5-1`.
pub fn parse_version(value: &str) -> (r: Result<PythonPackageVersion, VersionError>)
    ensures
        r == version_of(value@),
{
    let cs = chars_of(value);
    version_from_chars(&cs)
}

/// Reads the version from package metadata made of `Key: Value` lines.
pub fn parse_version_output(output: &str) -> (r: Result<PythonPackageVersion, VersionError>)
    ensures
        r == version_in_metadata(output@),
{
    let cs = chars_of(output);
    let lines = split_lines(&cs);
    let key = chars_of("Version");
    proof {
        reveal_strlit("Version");
        assert(key@ =~= version_key());
    }
    let ghost ls = views(lines@);
    let mut i: usize = 0;
    while i < lines.len()
        invariant
            i <= lines.len(),
            ls == views(lines@),
            ls == lines_of(cs@),
            cs@ == output@,
            key@ == version_key(),
            forall|j: int| 0 <= j < i ==> !has_prefix(#[trigger] ls[j], version_key()),
        decreases lines.len() - i,
    {
        if starts_with_chars(&lines[i], &key) {
            proof {
                lemma_first_version_line(ls, i as int);
                assert(ls.skip(i as int)[0] == ls[i as int]);
            }
            let (_key, rest) = split_once(&lines[i], ':');
            return match rest {
                None => Err(VersionError::NoVersionValue),
                Some(rest) => {
                    let (value, _more) = split_once(&rest, ':');
                    let value = trim_start_chars(&value);
                    version_from_chars(&value)
                },
            };
        }
        i = i + 1;
    }
    proof {
        lemma_first_version_line(ls, i as int);
    }
    Err(VersionError::NoVersionLine)
}

impl PythonPackageVersion {
    /// The version as `MAJOR.MINOR.RELEASE-PKGREL`.
    pub fn to_string(&self) -> (r: String)
        ensures
            r@ == version_text(*self),
    {
        let mut r = decimal_u8(self.major);
        r.append(".");
        let minor = decimal_u8(self.minor);
        r.append(minor.as_str());
        r.append(".");
        let release = decimal_u8(self.release);
        r.append(release.as_str());
        r.append("-");
        let package = decimal_u8(self.package);
        r.append(package.as_str());
        proof {
            reveal_strlit(".");
            reveal_strlit("-");
            assert(r@ =~= version_text(*self));
        }
        r
    }
}

} // verus!
