//! The lines that report what was found broken.
use vstd::prelude::*;

use crate::pipeline::MissingDependencyRecord;
use crate::stale::StalePackageRecord;
use crate::text::string_views;

verus! {

/// What `{:?}` writes for a string: the string in double quotes, with
/// quotes, backslashes and control characters escaped.
pub uninterp spec fn debug_quoted(s: Seq<char>) -> Seq<char>;

/// Relies on `<str as Debug>::fmt`, through `format!("{:?}")`, for the
/// quoted and escaped form of a string.
#[verifier::external_body]
fn quoted(s: &str) -> (r: String)
    ensures
        r@ == debug_quoted(s@),
{
    format!("{:?}", s)
}

pub open spec fn missing_dependency_text(r: (Seq<char>, Seq<char>, Seq<char>)) -> Seq<char> {
    "File "@ + debug_quoted(r.1) + " from package "@ + debug_quoted(r.0)
        + " is missing dependency "@ + debug_quoted(r.2)
}

pub open spec fn stale_package_text(r: (Seq<char>, Seq<char>)) -> Seq<char> {
    "Package "@ + debug_quoted(r.0) + " has files in directory "@ + debug_quoted(r.1)
        + " that are ignored by the current Python interpreter"@
}

pub open spec fn broken_link_text(path: Seq<char>) -> Seq<char> {
    "Systemd enabled service has broken link in "@ + debug_quoted(path)
}

/// The whole report: a line per missing library, then a line per package
/// with files for another Python version, then a line per broken link.
pub open spec fn report_text(
    missing: Seq<MissingDependencyRecord>,
    stale: Seq<StalePackageRecord>,
    broken: Seq<Seq<char>>,
) -> Seq<Seq<char>> {
    missing.map_values(|r: MissingDependencyRecord| missing_dependency_text(r@)) + stale.map_values(
        |r: StalePackageRecord| stale_package_text(r@),
    ) + broken.map_values(|p: Seq<char>| broken_link_text(p))
}

/// The line that reports a missing library.
pub fn missing_dependency_line(r: &MissingDependencyRecord) -> (s: String)
    ensures
        s@ == missing_dependency_text(r@),
{
    let mut s = String::from_str("File ");
    let file = quoted(r.file.as_str());
    s.append(file.as_str());
    s.append(" from package ");
    let package = quoted(r.package.as_str());
    s.append(package.as_str());
    s.append(" is missing dependency ");
    let dependency = quoted(r.dependency.as_str());
    s.append(dependency.as_str());
    s
}

/// The line that reports a package with files for another Python version.
pub fn stale_package_line(r: &StalePackageRecord) -> (s: String)
    ensures
        s@ == stale_package_text(r@),
{
    let mut s = String::from_str("Package ");
    let package = quoted(r.package.as_str());
    s.append(package.as_str());
    s.append(" has files in directory ");
    let directory = quoted(r.directory.as_str());
    s.append(directory.as_str());
    s.append(" that are ignored by the current Python interpreter");
    s
}

/// The line that reports a broken service link.
pub fn broken_link_line(path: &str) -> (s: String)
    ensures
        s@ == broken_link_text(path@),
{
    let mut s = String::from_str("Systemd enabled service has broken link in ");
    let p = quoted(path);
    s.append(p.as_str());
    s
}

/// The report's lines, in its order.
pub fn report_lines(
    missing: &Vec<MissingDependencyRecord>,
    stale: &Vec<StalePackageRecord>,
    broken: &Vec<String>,
) -> (r: Vec<String>)
    ensures
        string_views(r@) == report_text(missing@, stale@, string_views(broken@)),
{
    let mut r: Vec<String> = Vec::new();
    for i in 0..missing.len()
        invariant
            r.len() == i,
            forall|j: int|
                0 <= j < i ==> (#[trigger] r@[j])@ == missing_dependency_text(missing@[j]@),
    {
        r.push(missing_dependency_line(&missing[i]));
    }
    let n1 = r.len();
    for i in 0..stale.len()
        invariant
            n1 == missing.len(),
            r.len() == n1 + i,
            forall|j: int|
                0 <= j < n1 ==> (#[trigger] r@[j])@ == missing_dependency_text(missing@[j]@),
            forall|j: int|
                n1 <= j < n1 + i ==> (#[trigger] r@[j])@ == stale_package_text(stale@[j - n1]@),
    {
        r.push(stale_package_line(&stale[i]));
    }
    let n2 = r.len();
    for i in 0..broken.len()
        invariant
            n1 == missing.len(),
            n2 == n1 + stale.len(),
            r.len() == n2 + i,
            forall|j: int|
                0 <= j < n1 ==> (#[trigger] r@[j])@ == missing_dependency_text(missing@[j]@),
            forall|j: int|
                n1 <= j < n2 ==> (#[trigger] r@[j])@ == stale_package_text(stale@[j - n1]@),
            forall|j: int|
                n2 <= j < n2 + i ==> (#[trigger] r@[j])@ == broken_link_text(broken@[j - n2]@),
    {
        r.push(broken_link_line(broken[i].as_str()));
    }
    proof {
        assert(string_views(r@) =~= report_text(missing@, stale@, string_views(broken@)));
    }
    r
}

} // verus!
