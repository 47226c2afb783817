//! The files that a pull request changes, read from its unified diff, and
//! the rule that decides whether it may be merged without a maintainer.
use vstd::prelude::*;
use crate::text::{
    chars_of, ends_with, lemma_trim_end_keeps_prefix, matches_at, starts_with, string_of_range, trim_end, trim_range,
    trim_start,
};
use crate::front_matter::{line_views, lines_of, split_lines};

verus! {

/// `p` occurs in `s` at index `i`.
pub open spec fn occurs_at(s: Seq<char>, p: Seq<char>, i: int) -> bool {
    0 <= i && i + p.len() <= s.len() && s.subrange(i, i + p.len()) == p
}

pub open spec fn is_first_occurrence(s: Seq<char>, p: Seq<char>, i: int) -> bool {
    occurs_at(s, p, i) && forall|j: int| 0 <= j < i ==> !occurs_at(s, p, j)
}

/// The index of the first occurrence of `p` in `s`.
pub open spec fn first_occurrence(s: Seq<char>, p: Seq<char>) -> Option<int> {
    if exists|i: int| is_first_occurrence(s, p, i) {
        Some(choose|i: int| is_first_occurrence(s, p, i))
    } else {
        None
    }
}

proof fn lemma_first_occurrence_is(s: Seq<char>, p: Seq<char>, i: int)
    requires
        is_first_occurrence(s, p, i),
    ensures
        first_occurrence(s, p) == Some(i),
{
    let c = choose|k: int| is_first_occurrence(s, p, k);
    assert(is_first_occurrence(s, p, c));
    if c < i {
        assert(!occurs_at(s, p, c));
    }
    if i < c {
        assert(!occurs_at(s, p, i));
    }
}

/// The text that opens the header line of each file in a unified diff.
pub open spec fn header_prefix() -> Seq<char> {
    "diff --git a/"@
}

/// What separates the two paths of a header line.
pub open spec fn after_separator() -> Seq<char> {
    " b/"@
}

/// The path before the change that a diff line names, if it is a file
/// header line: the line begins with `diff --git a/`, and the path runs
/// from there to the first ` b/`, or to the end of the line without its
/// trailing whitespace.
pub open spec fn header_path(line: Seq<char>) -> Option<Seq<char>> {
    let t = trim_end(line);
    if starts_with(line, header_prefix()) {
        let rest = t.subrange(header_prefix().len() as int, t.len() as int);
        match first_occurrence(rest, after_separator()) {
            Some(k) => Some(rest.subrange(0, k)),
            None => Some(rest),
        }
    } else {
        None
    }
}

/// How many of `lines` begin with `diff --git a/`.
pub open spec fn header_line_count(lines: Seq<Seq<char>>) -> nat
    decreases lines.len(),
{
    if lines.len() == 0 {
        0
    } else {
        header_line_count(lines.drop_last()) + if starts_with(lines.last(), header_prefix()) {
            1nat
        } else {
            0nat
        }
    }
}

/// The paths that the header lines among `lines` name, in order.
pub open spec fn header_paths(lines: Seq<Seq<char>>) -> Seq<Seq<char>>
    decreases lines.len(),
{
    if lines.len() == 0 {
        Seq::empty()
    } else {
        let prev = header_paths(lines.drop_last());
        match header_path(lines.last()) {
            Some(p) => prev.push(p),
            None => prev,
        }
    }
}

/// The files that a unified diff changes, by their path before the change.
pub open spec fn changed_files(diff: Seq<char>) -> Seq<Seq<char>> {
    header_paths(split_lines(diff))
}

fn line_header_path(line: &Vec<char>) -> (r: Option<String>)
    ensures
        match r {
            Some(p) => header_path(line@) == Some(p@),
            None => header_path(line@) is None,
        },
{
    let prefix = chars_of("diff --git a/");
    assert(line@.subrange(0, line@.len() as int) =~= line@);
    if !matches_at(line, 0, &prefix) {
        return None;
    }
    proof {
        reveal_strlit("diff --git a/");
        assert(line@[0] == line@.subrange(0, prefix@.len() as int)[0]);
        assert(trim_start(line@) == line@);
    }
    let (a, b) = trim_range(line, 0, line.len());
    let t = crate::front_matter::sub_vec(line, a, b);
    assert(t@ == trim_end(line@));
    assert(t@.subrange(0, t@.len() as int) =~= t@);
    proof {
        assert(starts_with(line@, header_prefix()));
        lemma_trim_end_keeps_prefix(line@, header_prefix());
    }
    let sep = chars_of(" b/");
    let start = prefix.len();
    let ghost rest = t@.subrange(start as int, t@.len() as int);
    let mut k = start;
    while k < t.len()
        invariant
            start <= k <= t.len(),
            rest == t@.subrange(start as int, t@.len() as int),
            sep@ == after_separator(),
            start == header_prefix().len(),
            t@ == trim_end(line@),
            starts_with(line@, header_prefix()),
            starts_with(t@, header_prefix()),
            forall|j: int| 0 <= j < k - start ==> !occurs_at(rest, sep@, j),
        decreases t.len() - k,
    {
        if matches_at(&t, k, &sep) {
            proof {
                let j = k - start;
                assert(t@.subrange(k as int, t@.len() as int).subrange(0, sep@.len() as int)
                    =~= rest.subrange(j, j + sep@.len()));
                lemma_first_occurrence_is(rest, sep@, j);
                assert(rest.subrange(0, j) =~= t@.subrange(start as int, k as int));
            }
            return Some(string_of_range(&t, start, k));
        }
        proof {
            let j = k - start;
            if occurs_at(rest, sep@, j) {
                assert(t@.subrange(k as int, t@.len() as int).subrange(0, sep@.len() as int)
                    =~= rest.subrange(j, j + sep@.len()));
            }
        }
        k = k + 1;
    }
    proof {
        reveal_strlit(" b/");
        assert forall|j: int| !is_first_occurrence(rest, sep@, j) by {
            if 0 <= j < rest.len() {
                assert(!occurs_at(rest, sep@, j));
            }
        }
    }
    Some(string_of_range(&t, start, t.len()))
}

pub open spec fn string_views(v: Seq<String>) -> Seq<Seq<char>> {
    v.map_values(|s: String| s@)
}

/// The files that a unified diff changes, by their path before the change.
pub fn collect_changed_files(diff: &str) -> (r: Vec<String>)
    ensures
        string_views(r@) == changed_files(diff@),
{
    let d = chars_of(diff);
    let lines = lines_of(&d, 0, d.len());
    assert(d@.subrange(0, d@.len() as int) =~= d@);
    let ghost ls = line_views(lines@);
    let mut out: Vec<String> = Vec::new();
    let mut i: usize = 0;
    while i < lines.len()
        invariant
            i <= lines.len(),
            ls == line_views(lines@),
            string_views(out@) == header_paths(ls.subrange(0, i as int)),
        decreases lines.len() - i,
    {
        let ghost before = out@;
        assert(ls.subrange(0, i + 1).drop_last() =~= ls.subrange(0, i as int));
        assert(ls.subrange(0, i + 1).last() == lines@[i as int]@);
        match line_header_path(&lines[i]) {
            Some(p) => {
                out.push(p);
                assert(string_views(out@) =~= string_views(before).push(out@.last()@));
            },
            None => {},
        }
        i = i + 1;
    }
    assert(ls.subrange(0, lines.len() as int) =~= ls);
    out
}

/// A diff line names a changed file exactly when it begins with
/// `diff --git a/`, so a diff changes as many files as it has such lines.
pub proof fn lemma_changed_files_are_header_lines(diff: Seq<char>, line: Seq<char>)
    ensures
        header_path(line) is Some <==> starts_with(line, header_prefix()),
        changed_files(diff).len() == header_line_count(split_lines(diff)),
{
    lemma_header_paths_count(split_lines(diff));
}

proof fn lemma_header_paths_count(lines: Seq<Seq<char>>)
    ensures
        header_paths(lines).len() == header_line_count(lines),
    decreases lines.len(),
{
    if lines.len() > 0 {
        lemma_header_paths_count(lines.drop_last());
    }
}

/// A path that the bot may merge on its own: a markdown file under `data/`.
pub open spec fn is_article_path(p: Seq<char>) -> bool {
    starts_with(p, "data/"@) && ends_with(p, ".md"@)
}

/// Whether every one of `paths`, and at least one, is an article path.
pub open spec fn all_article_paths(paths: Seq<Seq<char>>) -> bool {
    paths.len() > 0 && forall|i: int| 0 <= i < paths.len() ==> is_article_path(#[trigger] paths[i])
}

pub fn is_article_path_exec(p: &str) -> (r: bool)
    ensures
        r == is_article_path(p@),
{
    let v = chars_of(p);
    let dir = chars_of("data/");
    let ext = chars_of(".md");
    assert(v@.subrange(0, v@.len() as int) =~= v@);
    if !matches_at(&v, 0, &dir) || v.len() < ext.len() {
        return false;
    }
    let at = v.len() - ext.len();
    let r = matches_at(&v, at, &ext);
    assert(v@.subrange(at as int, v@.len() as int).subrange(0, ext@.len() as int) =~= v@.subrange(
        at as int,
        v@.len() as int,
    ));
    r
}

/// Whether a pull request that changes these files may be merged without
/// a maintainer: there is at least one, and each is an article path.
pub fn validate_changed_files(paths: &Vec<String>) -> (r: bool)
    ensures
        r == all_article_paths(string_views(paths@)),
{
    if paths.len() == 0 {
        return false;
    }
    let mut i: usize = 0;
    while i < paths.len()
        invariant
            i <= paths.len(),
            forall|j: int| 0 <= j < i ==> is_article_path(#[trigger] string_views(paths@)[j]),
        decreases paths.len() - i,
    {
        if !is_article_path_exec(paths[i].as_str()) {
            assert(string_views(paths@)[i as int] == paths@[i as int]@);
            return false;
        }
        i = i + 1;
    }
    true
}

/// Whether the pull request with this diff may be merged without a maintainer.
pub fn validate_pr_diff(diff: &str) -> (r: bool)
    ensures
        r == all_article_paths(changed_files(diff@)),
{
    let files = collect_changed_files(diff);
    validate_changed_files(&files)
}

} // verus!
