//! Reading the dynamic linker's dependency report.
use vstd::prelude::*;

use crate::text::{
    before_char, chars_of, ends_with_chars, has_suffix, is_white, lemma_before_char_free,
    lemma_trim_start, lines_of, split_lines, split_once, string_of, string_views, trim_start,
    trim_start_chars, views,
};

verus! {

/// The text that ends a line about a library the linker could not resolve.
pub open spec fn not_found_marker() -> Seq<char> {
    seq!['=', '>', ' ', 'n', 'o', 't', ' ', 'f', 'o', 'u', 'n', 'd']
}

/// A line reports a missing library exactly when it ends with the marker.
pub open spec fn is_missing_dependency(line: Seq<char>) -> bool {
    has_suffix(line, not_found_marker())
}

/// The library a line names: its text before the first space, without
/// leading white space.
pub open spec fn dependency_name_of(line: Seq<char>) -> Seq<char> {
    trim_start(before_char(line, ' '))
}

/// The name a line gives is the end of the line's text before its first
/// space: it holds no space and starts with no white space.
pub proof fn lemma_dependency_name_shape(line: Seq<char>)
    ensures
        exists|k: int|
            0 <= k <= before_char(line, ' ').len() && dependency_name_of(line) == before_char(
                line,
                ' ',
            ).skip(k),
        !dependency_name_of(line).contains(' '),
        dependency_name_of(line).len() > 0 ==> !is_white(dependency_name_of(line)[0]),
{
    let head = before_char(line, ' ');
    lemma_before_char_free(line, ' ');
    lemma_trim_start(head);
    let k = choose|k: int| 0 <= k <= head.len() && trim_start(head) == head.skip(k);
    assert forall|j: int| 0 <= j < head.skip(k).len() implies head.skip(k)[j] != ' ' by {
        assert(head.skip(k)[j] == head[j + k]);
    }
}

/// The names of the missing libraries that the lines report, in order.
pub open spec fn missing_names(lines: Seq<Seq<char>>) -> Seq<Seq<char>>
    decreases lines.len(),
{
    if lines.len() == 0 {
        Seq::empty()
    } else {
        let prev = missing_names(lines.drop_last());
        if is_missing_dependency(lines.last()) {
            prev.push(dependency_name_of(lines.last()))
        } else {
            prev
        }
    }
}

/// What a run of the linker tool reports missing: nothing when the run
/// failed, else the names from its output.
pub open spec fn missing_dependencies_of(output: Seq<char>, exit_ok: bool) -> Seq<Seq<char>> {
    if exit_ok {
        missing_names(lines_of(output))
    } else {
        Seq::empty()
    }
}

fn missing_marker_chars() -> (r: Vec<char>)
    ensures
        r@ == not_found_marker(),
{
    let r = chars_of("=> not found");
    proof {
        reveal_strlit("=> not found");
        assert(r@ =~= not_found_marker());
    }
    r
}

fn dependency_name_chars(line: &Vec<char>) -> (r: Vec<char>)
    ensures
        r@ == dependency_name_of(line@),
{
    let (head, _rest) = split_once(line, ' ');
    trim_start_chars(&head)
}

/// Whether a line of the linker tool's output reports a missing library.
pub fn is_missing_dependency_line(line: &str) -> (r: bool)
    ensures
        r == is_missing_dependency(line@),
{
    let cs = chars_of(line);
    let marker = missing_marker_chars();
    ends_with_chars(&cs, &marker)
}

/// The library that a line of the linker tool's output names.
pub fn dependency_name(line: &str) -> (r: String)
    ensures
        r@ == dependency_name_of(line@),
{
    let cs = chars_of(line);
    let name = dependency_name_chars(&cs);
    string_of(name.as_slice())
}

/// The libraries that a run of the linker tool reports missing, in the order
/// of its output; none when the run did not succeed.
pub fn missing_dependencies(output: &str, exit_ok: bool) -> (r: Vec<String>)
    ensures
        string_views(r@) == missing_dependencies_of(output@, exit_ok),
{
    let mut r: Vec<String> = Vec::new();
    if !exit_ok {
        proof {
            assert(string_views(r@) =~= Seq::<Seq<char>>::empty());
        }
        return r;
    }
    let cs = chars_of(output);
    let lines = split_lines(&cs);
    let marker = missing_marker_chars();
    let ghost ls = views(lines@);
    proof {
        assert(ls.take(0) =~= Seq::<Seq<char>>::empty());
        assert(string_views(r@) =~= Seq::<Seq<char>>::empty());
    }
    for i in 0..lines.len()
        invariant
            ls == views(lines@),
            ls.len() == lines.len(),
            marker@ == not_found_marker(),
            string_views(r@) == missing_names(ls.take(i as int)),
    {
        let line = &lines[i];
        proof {
            assert(ls.take(i + 1).drop_last() =~= ls.take(i as int));
            assert(ls.take(i + 1).last() == line@);
        }
        if ends_with_chars(line, &marker) {
            let name = dependency_name_chars(line);
            let s = string_of(name.as_slice());
            let ghost old_r = r@;
            r.push(s);
            proof {
                assert(string_views(r@) =~= string_views(old_r).push(s@));
            }
        }
    }
    proof {
        assert(ls.take(lines.len() as int) =~= ls);
    }
    r
}

} // verus!
