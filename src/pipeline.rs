//! The work items that flow between the pipeline's stages, the records it
//! yields, and how its progress is counted.
use std::sync::Arc;

use vstd::prelude::*;

use crate::discovery::{discovered_paths, is_blacklisted, lemma_discovered_not_blacklisted, PathProbe};
use crate::text::string_views;

verus! {

/// An executable file found in a package, on its way to the dependency check.
#[derive(Debug)]
pub struct ExecutableFile {
    /// The package that owns the file, shared by all of its files.
    pub package: Arc<String>,
    pub path: Arc<String>,
    /// Set on the package's last file only: the check of that file completes
    /// the package.
    pub is_last_for_package: bool,
}

/// A library that an executable file of a package needs and that the linker
/// cannot find.
#[derive(Debug)]
pub struct MissingDependencyRecord {
    pub package: Arc<String>,
    pub file: Arc<String>,
    pub dependency: String,
}

impl View for MissingDependencyRecord {
    type V = (Seq<char>, Seq<char>, Seq<char>);

    open spec fn view(&self) -> (Seq<char>, Seq<char>, Seq<char>) {
        (self.package@, self.file@, self.dependency@)
    }
}

/// The items of one package: one per path, in order, each naming the
/// package, and the last one alone marked as such.
pub open spec fn is_package_batch(
    items: Seq<ExecutableFile>,
    package: Seq<char>,
    paths: Seq<Seq<char>>,
) -> bool {
    &&& items.len() == paths.len()
    &&& forall|i: int|
        0 <= i < items.len() ==> {
            &&& (#[trigger] items[i]).package@ == package
            &&& items[i].path@ == paths[i]
            &&& items[i].is_last_for_package <==> i == items.len() - 1
        }
}

/// The records of one file: one per missing library, in order.
pub open spec fn are_file_records(
    records: Seq<MissingDependencyRecord>,
    item: ExecutableFile,
    dependencies: Seq<Seq<char>>,
) -> bool {
    &&& records.len() == dependencies.len()
    &&& forall|i: int|
        0 <= i < records.len() ==> (#[trigger] records[i])@ == (
            item.package@,
            item.path@,
            dependencies[i],
        )
}

/// Progress that the discovery of a package with `n` files makes: a package
/// without files is complete at once.
pub open spec fn discovery_increments(n: nat) -> nat {
    if n == 0 {
        1
    } else {
        0
    }
}

/// Progress that the check of one file makes.
pub open spec fn check_increments(item: ExecutableFile) -> nat {
    if item.is_last_for_package {
        1
    } else {
        0
    }
}

/// Progress that the checks of all the items make.
pub open spec fn total_check_increments(items: Seq<ExecutableFile>) -> nat
    decreases items.len(),
{
    if items.len() == 0 {
        0
    } else {
        total_check_increments(items.drop_last()) + check_increments(items.last())
    }
}

/// The work items of a package, one per executable path, in order, the last
/// one marked.
pub fn package_work_items(package: &Arc<String>, paths: Vec<String>) -> (r: Vec<ExecutableFile>)
    ensures
        is_package_batch(r@, package@, string_views(paths@)),
{
    let n = paths.len();
    let mut r: Vec<ExecutableFile> = Vec::new();
    for path in it: paths
        invariant
            n == paths.len(),
            it.seq() == paths@,
            r.len() == it.index(),
            forall|j: int|
                0 <= j < r.len() ==> {
                    &&& (#[trigger] r@[j]).package@ == package@
                    &&& r@[j].path@ == paths@[j]@
                    &&& r@[j].is_last_for_package <==> j == n - 1
                },
    {
        let last = r.len() + 1 == n;
        r.push(
            ExecutableFile {
                package: Arc::clone(package),
                path: Arc::new(path),
                is_last_for_package: last,
            },
        );
    }
    r
}

/// How far the discovery of a package moves the progress count.
pub fn discovery_progress(items: &Vec<ExecutableFile>) -> (r: u64)
    ensures
        r == discovery_increments(items.len() as nat),
{
    if items.len() == 0 {
        1
    } else {
        0
    }
}

/// How far the check of one file moves the progress count.
pub fn check_progress(item: &ExecutableFile) -> (r: u64)
    ensures
        r == check_increments(*item),
{
    if item.is_last_for_package {
        1
    } else {
        0
    }
}

/// The records of a file, one per missing library, in order.
pub fn file_records(item: &ExecutableFile, dependencies: Vec<String>) -> (r: Vec<
    MissingDependencyRecord,
>)
    ensures
        are_file_records(r@, *item, string_views(dependencies@)),
{
    let mut r: Vec<MissingDependencyRecord> = Vec::new();
    for dependency in it: dependencies
        invariant
            it.seq() == dependencies@,
            r.len() == it.index(),
            forall|j: int|
                0 <= j < r.len() ==> (#[trigger] r@[j])@ == (
                    item.package@,
                    item.path@,
                    dependencies@[j]@,
                ),
    {
        r.push(
            MissingDependencyRecord {
                package: Arc::clone(&item.package),
                file: Arc::clone(&item.path),
                dependency,
            },
        );
    }
    r
}

proof fn lemma_total_check_increments(items: Seq<ExecutableFile>)
    requires
        forall|i: int| 0 <= i < items.len() - 1 ==> !(#[trigger] items[i]).is_last_for_package,
    ensures
        items.len() > 0 ==> total_check_increments(items) == check_increments(items.last()),
        items.len() == 0 ==> total_check_increments(items) == 0,
    decreases items.len(),
{
    if items.len() > 1 {
        let init = items.drop_last();
        assert forall|i: int| 0 <= i < init.len() - 1 implies !(
        #[trigger] init[i]).is_last_for_package by {
            assert(init[i] == items[i]);
        }
        lemma_total_check_increments(init);
        assert(init.last() == items[items.len() - 2]);
        assert(!items[items.len() - 2].is_last_for_package);
    } else if items.len() == 1 {
        assert(items.drop_last().len() == 0);
        assert(total_check_increments(items.drop_last()) == 0);
    }
}

/// Each package moves the progress count exactly once: at its discovery
/// when it has no files, else at the check of its last file only.
pub proof fn lemma_progress_once_per_package(
    items: Seq<ExecutableFile>,
    package: Seq<char>,
    paths: Seq<Seq<char>>,
)
    requires
        is_package_batch(items, package, paths),
    ensures
        paths.len() == 0 ==> discovery_increments(items.len()) == 1 && total_check_increments(
            items,
        ) == 0,
        paths.len() > 0 ==> discovery_increments(items.len()) == 0 && total_check_increments(
            items,
        ) == 1,
        discovery_increments(items.len()) + total_check_increments(items) == 1,
{
    lemma_total_check_increments(items);
    if items.len() > 0 {
        assert(items[items.len() - 1].is_last_for_package);
    }
}

/// No record names a file under an excluded prefix, whatever the linker
/// reports for it.
pub proof fn lemma_blacklisted_never_recorded(
    probes: Seq<PathProbe>,
    blacklist: Seq<Seq<char>>,
    package: Seq<char>,
    items: Seq<ExecutableFile>,
    i: int,
    dependencies: Seq<Seq<char>>,
    records: Seq<MissingDependencyRecord>,
)
    requires
        is_package_batch(items, package, discovered_paths(probes, blacklist)),
        0 <= i < items.len(),
        are_file_records(records, items[i], dependencies),
    ensures
        forall|j: int|
            0 <= j < records.len() ==> !is_blacklisted((#[trigger] records[j]).file@, blacklist),
{
    lemma_discovered_not_blacklisted(probes, blacklist);
    assert forall|j: int| 0 <= j < records.len() implies !is_blacklisted(
        (#[trigger] records[j]).file@,
        blacklist,
    ) by {
        assert(records[j]@ == (items[i].package@, items[i].path@, dependencies[j]));
        assert(items[i].path@ == discovered_paths(probes, blacklist)[i]);
    }
}

} // verus!
