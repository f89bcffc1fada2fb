//! Packages that left files for another Python version.
use vstd::prelude::*;

use crate::text::{decimal_digits, decimal_u8, string_views};
use crate::version::PythonPackageVersion;

verus! {

/// A package that owns files in the library directory of another Python
/// version.
#[derive(Debug)]
pub struct StalePackageRecord {
    pub package: String,
    pub directory: String,
}

impl View for StalePackageRecord {
    type V = (Seq<char>, Seq<char>);

    open spec fn view(&self) -> (Seq<char>, Seq<char>) {
        (self.package@, self.directory@)
    }
}

/// The pairs that the records hold.
pub open spec fn record_views(v: Seq<StalePackageRecord>) -> Seq<(Seq<char>, Seq<char>)> {
    v.map_values(|r: StalePackageRecord| r@)
}

/// The library directory of the installed interpreter.
pub open spec fn python_dir_of(v: PythonPackageVersion) -> Seq<char> {
    "/usr/lib/python"@ + decimal_digits(v.major as nat) + "."@ + decimal_digits(v.minor as nat)
}

/// The pattern of the library directories of every version with the same
/// major number.
pub open spec fn python_dir_pattern_of(v: PythonPackageVersion) -> Seq<char> {
    "/usr/lib/python"@ + decimal_digits(v.major as nat) + "*"@
}

/// The directories other than `current`, in order.
pub open spec fn dirs_other_than(dirs: Seq<Seq<char>>, current: Seq<char>) -> Seq<Seq<char>>
    decreases dirs.len(),
{
    if dirs.len() == 0 {
        Seq::empty()
    } else {
        let prev = dirs_other_than(dirs.drop_last(), current);
        if dirs.last() != current {
            prev.push(dirs.last())
        } else {
            prev
        }
    }
}

/// `records` with `r` added unless it is already there.
pub open spec fn with_record(records: Seq<(Seq<char>, Seq<char>)>, r: (Seq<char>, Seq<char>)) -> Seq<
    (Seq<char>, Seq<char>),
> {
    if records.contains(r) {
        records
    } else {
        records.push(r)
    }
}

/// `records` with a pair of each owner and the directory, each added unless
/// it is already there.
pub open spec fn with_owners(
    records: Seq<(Seq<char>, Seq<char>)>,
    directory: Seq<char>,
    owners: Seq<Seq<char>>,
) -> Seq<(Seq<char>, Seq<char>)>
    decreases owners.len(),
{
    if owners.len() == 0 {
        records
    } else {
        with_record(with_owners(records, directory, owners.drop_last()), (owners.last(), directory))
    }
}

/// The library directory of the interpreter of version `v`.
pub fn current_python_dir(v: &PythonPackageVersion) -> (r: String)
    ensures
        r@ == python_dir_of(*v),
{
    let mut r = String::from_str("/usr/lib/python");
    let major = decimal_u8(v.major);
    r.append(major.as_str());
    r.append(".");
    let minor = decimal_u8(v.minor);
    r.append(minor.as_str());
    r
}

/// The pattern of the library directories of interpreters with the major
/// version of `v`.
pub fn python_dir_pattern(v: &PythonPackageVersion) -> (r: String)
    ensures
        r@ == python_dir_pattern_of(*v),
{
    let mut r = String::from_str("/usr/lib/python");
    let major = decimal_u8(v.major);
    r.append(major.as_str());
    r.append("*");
    r
}

/// The directories that are not the library directory of version `v`.
pub fn stale_python_dirs(dirs: &Vec<String>, v: &PythonPackageVersion) -> (r: Vec<String>)
    ensures
        string_views(r@) == dirs_other_than(string_views(dirs@), python_dir_of(*v)),
{
    let current = current_python_dir(v);
    let ghost ds = string_views(dirs@);
    let mut r: Vec<String> = Vec::new();
    proof {
        assert(ds.take(0) =~= Seq::<Seq<char>>::empty());
        assert(string_views(r@) =~= Seq::<Seq<char>>::empty());
    }
    for i in 0..dirs.len()
        invariant
            ds == string_views(dirs@),
            ds.len() == dirs.len(),
            current@ == python_dir_of(*v),
            string_views(r@) == dirs_other_than(ds.take(i as int), current@),
    {
        proof {
            assert(ds.take(i + 1).drop_last() =~= ds.take(i as int));
            assert(ds.take(i + 1).last() == dirs@[i as int]@);
        }
        if dirs[i] != current {
            let d = dirs[i].clone();
            let ghost old_r = r@;
            r.push(d);
            proof {
                assert(string_views(r@) =~= string_views(old_r).push(d@));
            }
        }
    }
    proof {
        assert(ds.take(dirs.len() as int) =~= ds);
    }
    r
}

fn contains_record(records: &Vec<StalePackageRecord>, package: &String, directory: &String) -> (r:
    bool)
    ensures
        r == record_views(records@).contains((package@, directory@)),
{
    let ghost rv = record_views(records@);
    for i in 0..records.len()
        invariant
            rv == record_views(records@),
            forall|j: int| 0 <= j < i ==> rv[j] != (package@, directory@),
    {
        if records[i].package == *package && records[i].directory == *directory {
            proof {
                assert(rv[i as int] == (package@, directory@));
            }
            return true;
        }
    }
    false
}

/// Adds a record of each owner of `directory`, unless that pair is already
/// recorded.
pub fn record_stale_owners(
    records: &mut Vec<StalePackageRecord>,
    directory: &String,
    owners: &Vec<String>,
)
    ensures
        record_views(final(records)@) == with_owners(
            record_views(old(records)@),
            directory@,
            string_views(owners@),
        ),
{
    let ghost start = record_views(records@);
    let ghost os = string_views(owners@);
    proof {
        assert(os.take(0) =~= Seq::<Seq<char>>::empty());
    }
    for i in 0..owners.len()
        invariant
            os == string_views(owners@),
            os.len() == owners.len(),
            record_views(records@) == with_owners(start, directory@, os.take(i as int)),
    {
        proof {
            assert(os.take(i + 1).drop_last() =~= os.take(i as int));
            assert(os.take(i + 1).last() == owners@[i as int]@);
        }
        if !contains_record(records, &owners[i], directory) {
            let rec = StalePackageRecord { package: owners[i].clone(), directory: directory.clone() };
            let ghost old_r = record_views(records@);
            records.push(rec);
            proof {
                assert(record_views(records@) =~= old_r.push((owners@[i as int]@, directory@)));
            }
        }
    }
    proof {
        assert(os.take(owners.len() as int) =~= os);
    }
}

/// Adding owners never records a pair twice, and records every owner with
/// the directory.
pub proof fn lemma_with_owners_distinct(
    records: Seq<(Seq<char>, Seq<char>)>,
    directory: Seq<char>,
    owners: Seq<Seq<char>>,
)
    requires
        records.no_duplicates(),
    ensures
        with_owners(records, directory, owners).no_duplicates(),
        forall|i: int|
            0 <= i < owners.len() ==> with_owners(records, directory, owners).contains(
                (#[trigger] owners[i], directory),
            ),
        forall|i: int|
            0 <= i < records.len() ==> with_owners(records, directory, owners).contains(
                #[trigger] records[i],
            ),
    decreases owners.len(),
{
    if owners.len() > 0 {
        let init = owners.drop_last();
        lemma_with_owners_distinct(records, directory, init);
        let prev = with_owners(records, directory, init);
        let p = (owners.last(), directory);
        if !prev.contains(p) {
            assert(prev.push(p)[prev.len() as int] == p);
            assert forall|a: int, b: int|
                0 <= a < b < prev.push(p).len() implies prev.push(p)[a] != prev.push(p)[b] by {
                if b == prev.len() {
                    assert(prev.push(p)[a] == prev[a]);
                }
            }
        }
        assert forall|i: int| 0 <= i < owners.len() implies with_owners(
            records,
            directory,
            owners,
        ).contains((#[trigger] owners[i], directory)) by {
            if i < init.len() {
                assert(init[i] == owners[i]);
                assert(prev.contains((init[i], directory)));
                let k = choose|k: int| 0 <= k < prev.len() && prev[k] == (init[i], directory);
                if !prev.contains(p) {
                    assert(prev.push(p)[k] == prev[k]);
                }
            } else if !prev.contains(p) {
                assert(prev.push(p)[prev.len() as int] == p);
            }
        }
        assert forall|i: int| 0 <= i < records.len() implies with_owners(
            records,
            directory,
            owners,
        ).contains(#[trigger] records[i]) by {
            assert(prev.contains(records[i]));
            let k = choose|k: int| 0 <= k < prev.len() && prev[k] == records[i];
            if !prev.contains(p) {
                assert(prev.push(p)[k] == prev[k]);
            }
        }
    }
}

} // verus!
