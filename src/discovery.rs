//! Finding the executable files that a package owns.
use vstd::prelude::*;

use crate::text::{
    after_char, chars_of, has_prefix, lines_of, split_lines, split_once, starts_with_chars,
    string_of, string_views, views,
};

verus! {

/// The type of a filesystem entry, as seen without following it.
#[derive(Clone, Copy, Debug, PartialEq, Eq, Structural)]
pub enum FileKind {
    Regular,
    Directory,
    Symlink,
    Other,
}

/// What a look at a filesystem entry shows: its type and permission bits.
#[derive(Clone, Copy, Debug, PartialEq, Eq, Structural)]
pub struct FileStat {
    pub kind: FileKind,
    pub mode: u32,
}

/// A path that a package owns, with what was seen there: the entry itself,
/// and, where it is a symbolic link, the entry that the link names (not
/// followed further).
#[derive(Debug)]
pub struct PathProbe {
    pub path: String,
    pub entry: Option<FileStat>,
    pub link_target: Option<FileStat>,
}

/// A regular file with at least one execute permission bit.
pub open spec fn is_executable_file(st: FileStat) -> bool {
    st.kind == FileKind::Regular && st.mode & 0o111u32 != 0u32
}

/// The entry is an executable file, or a link to one, one hop away.
pub open spec fn resolves_to_executable(entry: Option<FileStat>, link_target: Option<FileStat>) -> bool {
    match entry {
        None => false,
        Some(st) => if st.kind == FileKind::Symlink {
            match link_target {
                Some(t) => is_executable_file(t),
                None => false,
            }
        } else {
            is_executable_file(st)
        },
    }
}

/// The path starts with one of the excluded prefixes.
pub open spec fn is_blacklisted(path: Seq<char>, blacklist: Seq<Seq<char>>) -> bool {
    exists|i: int| 0 <= i < blacklist.len() && has_prefix(path, #[trigger] blacklist[i])
}

/// The probe shows an executable outside the excluded prefixes.
pub open spec fn is_discovered(p: PathProbe, blacklist: Seq<Seq<char>>) -> bool {
    resolves_to_executable(p.entry, p.link_target) && !is_blacklisted(p.path@, blacklist)
}

/// The paths of the probes that show an executable outside the excluded
/// prefixes, in order.
pub open spec fn discovered_paths(probes: Seq<PathProbe>, blacklist: Seq<Seq<char>>) -> Seq<
    Seq<char>,
>
    decreases probes.len(),
{
    if probes.len() == 0 {
        Seq::empty()
    } else {
        let prev = discovered_paths(probes.drop_last(), blacklist);
        if is_discovered(probes.last(), blacklist) {
            prev.push(probes.last().path@)
        } else {
            prev
        }
    }
}

/// The path on a line `<package> <path>` of a package's file list.
pub open spec fn listed_path(line: Seq<char>) -> Option<Seq<char>> {
    after_char(line, ' ')
}

/// The paths on the lines of a package's file list, in order.
pub open spec fn listed_paths(lines: Seq<Seq<char>>) -> Seq<Seq<char>>
    decreases lines.len(),
{
    if lines.len() == 0 {
        Seq::empty()
    } else {
        let prev = listed_paths(lines.drop_last());
        match listed_path(lines.last()) {
            Some(p) => prev.push(p),
            None => prev,
        }
    }
}

/// Directories whose executables are left unchecked: packages that install
/// there commonly bring their own libraries.
pub open spec fn default_blacklist() -> Seq<Seq<char>> {
    seq![
        seq!['/', 'o', 'p', 't', '/'],
        seq!['/', 'u', 's', 'r', '/', 's', 'h', 'a', 'r', 'e', '/'],
    ]
}

/// The directories excluded by default.
pub fn blacklisted_exe_dirs() -> (r: Vec<String>)
    ensures
        string_views(r@) == default_blacklist(),
{
    let mut r: Vec<String> = Vec::new();
    r.push(String::from_str("/opt/"));
    r.push(String::from_str("/usr/share/"));
    proof {
        reveal_strlit("/opt/");
        reveal_strlit("/usr/share/");
        assert(r@[0]@ =~= default_blacklist()[0]);
        assert(r@[1]@ =~= default_blacklist()[1]);
        assert(string_views(r@) =~= default_blacklist());
    }
    r
}

/// The paths listed in a package's file list, one `<package> <path>` per line.
pub fn owned_paths(listing: &str) -> (r: Vec<String>)
    ensures
        string_views(r@) == listed_paths(lines_of(listing@)),
{
    let cs = chars_of(listing);
    let lines = split_lines(&cs);
    let ghost ls = views(lines@);
    let mut r: Vec<String> = Vec::new();
    proof {
        assert(ls.take(0) =~= Seq::<Seq<char>>::empty());
        assert(string_views(r@) =~= Seq::<Seq<char>>::empty());
    }
    for i in 0..lines.len()
        invariant
            ls == views(lines@),
            ls.len() == lines.len(),
            string_views(r@) == listed_paths(ls.take(i as int)),
    {
        proof {
            assert(ls.take(i + 1).drop_last() =~= ls.take(i as int));
            assert(ls.take(i + 1).last() == lines@[i as int]@);
        }
        let (_package, rest) = split_once(&lines[i], ' ');
        match rest {
            Some(p) => {
                let s = string_of(p.as_slice());
                let ghost old_r = r@;
                r.push(s);
                proof {
                    assert(string_views(r@) =~= string_views(old_r).push(s@));
                }
            },
            None => {},
        }
    }
    proof {
        assert(ls.take(lines.len() as int) =~= ls);
    }
    r
}

fn is_executable_stat(st: FileStat) -> (r: bool)
    ensures
        r == is_executable_file(st),
{
    st.kind == FileKind::Regular && st.mode & 0o111u32 != 0u32
}

/// Whether the entry is an executable file, following at most one link.
pub fn is_executable_entry(entry: Option<FileStat>, link_target: Option<FileStat>) -> (r: bool)
    ensures
        r == resolves_to_executable(entry, link_target),
{
    match entry {
        None => false,
        Some(st) => if st.kind == FileKind::Symlink {
            match link_target {
                Some(t) => is_executable_stat(t),
                None => false,
            }
        } else {
            is_executable_stat(st)
        },
    }
}

fn is_blacklisted_chars(path: &Vec<char>, blacklist: &Vec<String>) -> (r: bool)
    ensures
        r == is_blacklisted(path@, string_views(blacklist@)),
{
    let ghost bl = string_views(blacklist@);
    for i in 0..blacklist.len()
        invariant
            bl == string_views(blacklist@),
            forall|j: int| 0 <= j < i ==> !has_prefix(path@, #[trigger] bl[j]),
    {
        let prefix = chars_of(blacklist[i].as_str());
        if starts_with_chars(path, &prefix) {
            proof {
                assert(has_prefix(path@, bl[i as int]));
            }
            return true;
        }
    }
    false
}

/// Whether the path starts with one of the excluded prefixes.
pub fn is_blacklisted_path(path: &str, blacklist: &Vec<String>) -> (r: bool)
    ensures
        r == is_blacklisted(path@, string_views(blacklist@)),
{
    let cs = chars_of(path);
    is_blacklisted_chars(&cs, blacklist)
}

/// The paths of the probes that show an executable file, or a link to one,
/// outside the excluded prefixes, in the order of the probes.
pub fn discover_executables(probes: &Vec<PathProbe>, blacklist: &Vec<String>) -> (r: Vec<String>)
    ensures
        string_views(r@) == discovered_paths(probes@, string_views(blacklist@)),
{
    let ghost bl = string_views(blacklist@);
    let mut r: Vec<String> = Vec::new();
    proof {
        assert(probes@.take(0) =~= Seq::<PathProbe>::empty());
        assert(string_views(r@) =~= Seq::<Seq<char>>::empty());
    }
    for i in 0..probes.len()
        invariant
            bl == string_views(blacklist@),
            string_views(r@) == discovered_paths(probes@.take(i as int), bl),
    {
        let probe = &probes[i];
        proof {
            assert(probes@.take(i + 1).drop_last() =~= probes@.take(i as int));
            assert(probes@.take(i + 1).last() == *probe);
        }
        if is_executable_entry(probe.entry, probe.link_target) {
            let cs = chars_of(probe.path.as_str());
            if !is_blacklisted_chars(&cs, blacklist) {
                let s = probe.path.clone();
                let ghost old_r = r@;
                r.push(s);
                proof {
                    assert(string_views(r@) =~= string_views(old_r).push(probe.path@));
                }
            }
        }
    }
    proof {
        assert(probes@.take(probes.len() as int) =~= probes@);
    }
    r
}

/// A path is discovered exactly when some probe of it shows an executable
/// outside the excluded prefixes.
pub proof fn lemma_discovered_paths_contains(
    probes: Seq<PathProbe>,
    blacklist: Seq<Seq<char>>,
    x: Seq<char>,
)
    ensures
        discovered_paths(probes, blacklist).contains(x) <==> exists|i: int|
            0 <= i < probes.len() && is_discovered(#[trigger] probes[i], blacklist)
                && probes[i].path@ == x,
    decreases probes.len(),
{
    if probes.len() > 0 {
        let init = probes.drop_last();
        lemma_discovered_paths_contains(init, blacklist, x);
        let prev = discovered_paths(init, blacklist);
        if exists|i: int|
            0 <= i < probes.len() && is_discovered(#[trigger] probes[i], blacklist)
                && probes[i].path@ == x {
            let i = choose|i: int|
                0 <= i < probes.len() && is_discovered(#[trigger] probes[i], blacklist)
                    && probes[i].path@ == x;
            if i < probes.len() - 1 {
                assert(init[i] == probes[i]);
                let k = choose|k: int| 0 <= k < prev.len() && prev[k] == x;
                if is_discovered(probes.last(), blacklist) {
                    assert(prev.push(probes.last().path@)[k] == x);
                }
            } else {
                if is_discovered(probes.last(), blacklist) {
                    assert(prev.push(probes.last().path@)[prev.len() as int] == x);
                }
            }
        }
        if discovered_paths(probes, blacklist).contains(x) {
            if !prev.contains(x) {
                assert(is_discovered(probes[probes.len() - 1], blacklist));
            } else {
                let i = choose|i: int|
                    0 <= i < init.len() && is_discovered(#[trigger] init[i], blacklist)
                        && init[i].path@ == x;
                assert(probes[i] == init[i]);
            }
        }
    }
}

/// Discovery does not depend on the order in which the package's paths are
/// listed: probes that differ only in order give the same set of paths.
pub proof fn lemma_discovery_order_independent(
    a: Seq<PathProbe>,
    b: Seq<PathProbe>,
    blacklist: Seq<Seq<char>>,
)
    requires
        a.to_multiset() == b.to_multiset(),
    ensures
        discovered_paths(a, blacklist).to_set() == discovered_paths(b, blacklist).to_set(),
{
    broadcast use vstd::seq_lib::group_to_multiset_ensures;

    assert forall|x: Seq<char>|
        discovered_paths(a, blacklist).contains(x) implies discovered_paths(b, blacklist).contains(
            x,
        ) by {
        lemma_discovered_paths_contains(a, blacklist, x);
        lemma_discovered_paths_contains(b, blacklist, x);
        let i = choose|i: int|
            0 <= i < a.len() && is_discovered(#[trigger] a[i], blacklist) && a[i].path@ == x;
        assert(a.contains(a[i]));
        assert(a.to_multiset().count(a[i]) > 0);
        assert(b.to_multiset().count(a[i]) > 0);
        assert(b.contains(a[i]));
    }
    assert forall|x: Seq<char>|
        discovered_paths(b, blacklist).contains(x) implies discovered_paths(a, blacklist).contains(
            x,
        ) by {
        lemma_discovered_paths_contains(a, blacklist, x);
        lemma_discovered_paths_contains(b, blacklist, x);
        let i = choose|i: int|
            0 <= i < b.len() && is_discovered(#[trigger] b[i], blacklist) && b[i].path@ == x;
        assert(b.contains(b[i]));
        assert(b.to_multiset().count(b[i]) > 0);
        assert(a.to_multiset().count(b[i]) > 0);
        assert(a.contains(b[i]));
    }
    assert(discovered_paths(a, blacklist).to_set() =~= discovered_paths(b, blacklist).to_set());
}

/// No discovered path starts with an excluded prefix.
pub proof fn lemma_discovered_not_blacklisted(probes: Seq<PathProbe>, blacklist: Seq<Seq<char>>)
    ensures
        forall|k: int|
            0 <= k < discovered_paths(probes, blacklist).len() ==> !is_blacklisted(
                #[trigger] discovered_paths(probes, blacklist)[k],
                blacklist,
            ),
{
    assert forall|k: int|
        0 <= k < discovered_paths(probes, blacklist).len() implies !is_blacklisted(
        #[trigger] discovered_paths(probes, blacklist)[k],
        blacklist,
    ) by {
        let x = discovered_paths(probes, blacklist)[k];
        assert(discovered_paths(probes, blacklist).contains(x));
        lemma_discovered_paths_contains(probes, blacklist, x);
    }
}

} // verus!
