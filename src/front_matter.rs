//! The front matter of a contribution: the `key: value` lines before the
//! first `---`, the lookup of a field among them, the reading of a
//! contribution from an issue, and the splitting of an article file into
//! its header and its content.
use vstd::prelude::*;
use crate::text::{chars_of, matches_at, starts_with, string_of_range, trim, trim_range};

verus! {

/// A `---` delimiter starts at index `i` of `s`.
pub open spec fn delim_at(s: Seq<char>, i: int) -> bool {
    0 <= i && i + 3 <= s.len() && s[i] == '-' && s[i + 1] == '-' && s[i + 2] == '-'
}

pub open spec fn is_first_delim(s: Seq<char>, i: int) -> bool {
    delim_at(s, i) && forall|j: int| 0 <= j < i ==> !delim_at(s, j)
}

/// The index of the first `---` in `s`, if there is one.
pub open spec fn first_delim(s: Seq<char>) -> Option<int> {
    if exists|i: int| is_first_delim(s, i) {
        Some(choose|i: int| is_first_delim(s, i))
    } else {
        None
    }
}

pub proof fn lemma_first_delim_is(s: Seq<char>, i: int)
    requires
        is_first_delim(s, i),
    ensures
        first_delim(s) == Some(i),
{
    let c = choose|k: int| is_first_delim(s, k);
    assert(is_first_delim(s, c));
    if c < i {
        assert(!delim_at(s, c));
    }
    if i < c {
        assert(!delim_at(s, i));
    }
}

pub proof fn lemma_no_delim(s: Seq<char>)
    requires
        forall|i: int| !delim_at(s, i),
    ensures
        first_delim(s) is None,
{
}

/// The first `---` of `v` at or after `from`.
pub fn find_delim(v: &Vec<char>, from: usize) -> (r: Option<usize>)
    requires
        from <= v.len(),
    ensures
        match r {
            Some(i) => from <= i && delim_at(v@, i as int) && forall|j: int|
                from <= j < i ==> !delim_at(v@, j),
            None => forall|j: int| from <= j ==> !delim_at(v@, j),
        },
{
    let n = v.len();
    let mut i = from;
    while n - i >= 3
        invariant
            from <= i <= n,
            n == v.len(),
            forall|j: int| from <= j < i ==> !delim_at(v@, j),
        decreases n - i,
    {
        if v[i] == '-' && v[i + 1] == '-' && v[i + 2] == '-' {
            return Some(i);
        }
        i = i + 1;
    }
    None
}

/// The lines of `s`, split at each `'\n'`; a trailing newline leaves an
/// empty last line, as `str::split` does.
pub open spec fn split_lines(s: Seq<char>) -> Seq<Seq<char>>
    decreases s.len(),
{
    if s.len() == 0 {
        seq![Seq::empty()]
    } else {
        let prev = split_lines(s.drop_last());
        if s.last() == '\n' {
            prev.push(Seq::empty())
        } else {
            prev.update(prev.len() - 1, prev.last().push(s.last()))
        }
    }
}

pub proof fn lemma_split_lines_nonempty(s: Seq<char>)
    ensures
        split_lines(s).len() >= 1,
    decreases s.len(),
{
    if s.len() > 0 {
        lemma_split_lines_nonempty(s.drop_last());
    }
}

/// The value of a line that holds `key`: what follows the key, trimmed.
pub open spec fn field_value(line: Seq<char>, key: Seq<char>) -> Seq<char> {
    let t = trim(line);
    trim(t.subrange(key.len() as int, t.len() as int))
}

/// The value of the first line whose trimmed text starts with `key`.
pub open spec fn find_field(lines: Seq<Seq<char>>, key: Seq<char>) -> Option<Seq<char>>
    decreases lines.len(),
{
    if lines.len() == 0 {
        None
    } else if starts_with(trim(lines[0]), key) {
        Some(field_value(lines[0], key))
    } else {
        find_field(lines.drop_first(), key)
    }
}

/// A copy of `v[lo..hi]`.
pub fn sub_vec(v: &Vec<char>, lo: usize, hi: usize) -> (r: Vec<char>)
    requires
        lo <= hi <= v.len(),
    ensures
        r@ == v@.subrange(lo as int, hi as int),
{
    let mut r: Vec<char> = Vec::new();
    let mut i = lo;
    while i < hi
        invariant
            lo <= i <= hi <= v.len(),
            r@ == v@.subrange(lo as int, i as int),
        decreases hi - i,
    {
        r.push(v[i]);
        assert(v@.subrange(lo as int, i + 1) =~= v@.subrange(lo as int, i as int).push(v@[i as int]));
        i = i + 1;
    }
    r
}

pub open spec fn line_views(lines: Seq<Vec<char>>) -> Seq<Seq<char>> {
    lines.map_values(|l: Vec<char>| l@)
}

/// The lines of `v[lo..hi]`.
pub fn lines_of(v: &Vec<char>, lo: usize, hi: usize) -> (r: Vec<Vec<char>>)
    requires
        lo <= hi <= v.len(),
    ensures
        line_views(r@) == split_lines(v@.subrange(lo as int, hi as int)),
{
    let mut lines: Vec<Vec<char>> = Vec::new();
    let mut cur: Vec<char> = Vec::new();
    let mut i = lo;
    assert(v@.subrange(lo as int, lo as int) =~= Seq::<char>::empty());
    assert(line_views(lines@).push(cur@) =~= seq![Seq::<char>::empty()]);
    while i < hi
        invariant
            lo <= i <= hi <= v.len(),
            split_lines(v@.subrange(lo as int, i as int)) == line_views(lines@).push(cur@),
        decreases hi - i,
    {
        let c = v[i];
        let ghost old_lines = line_views(lines@);
        let ghost old_cur = cur@;
        proof {
            let s = v@.subrange(lo as int, i + 1);
            assert(s.drop_last() =~= v@.subrange(lo as int, i as int));
            assert(s.last() == c);
        }
        if c == '\n' {
            lines.push(cur);
            cur = Vec::new();
            assert(line_views(lines@) =~= old_lines.push(old_cur));
            assert(line_views(lines@).push(cur@) =~= old_lines.push(old_cur).push(Seq::empty()));
        } else {
            cur.push(c);
            assert(line_views(lines@).push(cur@) =~= old_lines.push(old_cur).update(
                old_lines.len() as int,
                old_cur.push(c),
            ));
        }
        i = i + 1;
    }
    let ghost before = line_views(lines@).push(cur@);
    lines.push(cur);
    assert(line_views(lines@) =~= before);
    lines
}

} // verus!

verus! {

/// The value of the first of `lines` whose trimmed text starts with `key`.
pub fn find_field_in(lines: &Vec<Vec<char>>, key: &Vec<char>) -> (r: Option<String>)
    ensures
        match r {
            Some(s) => find_field(line_views(lines@), key@) == Some(s@),
            None => find_field(line_views(lines@), key@) is None,
        },
{
    let ghost ls = line_views(lines@);
    let n = lines.len();
    let mut i: usize = 0;
    assert(ls.subrange(0, n as int) =~= ls);
    while i < n
        invariant
            i <= n,
            n == lines.len(),
            ls == line_views(lines@),
            find_field(ls, key@) == find_field(ls.subrange(i as int, n as int), key@),
        decreases n - i,
    {
        let line = &lines[i];
        let ghost rest = ls.subrange(i as int, n as int);
        assert(rest[0] == line@);
        assert(rest.drop_first() =~= ls.subrange(i + 1, n as int));
        let (a, b) = trim_range(line, 0, line.len());
        assert(line@.subrange(0, line@.len() as int) =~= line@);
        let t = sub_vec(line, a, b);
        assert(t@.subrange(0, t@.len() as int) =~= t@);
        if matches_at(&t, 0, key) {
            let (c, d) = trim_range(&t, key.len(), t.len());
            let value = string_of_range(&t, c, d);
            return Some(value);
        }
        i = i + 1;
    }
    None
}

/// The marker that opens the title of a contribution issue.
pub open spec fn marker() -> Seq<char> {
    "[Contribute]"@
}

pub open spec fn language_key() -> Seq<char> {
    "language:"@
}

pub open spec fn answer_key() -> Seq<char> {
    "answer:"@
}

pub open spec fn author_key() -> Seq<char> {
    "author:"@
}

pub open spec fn last_update_key() -> Seq<char> {
    "last_update:"@
}

/// Why an issue body could not be read as a contribution.
#[derive(PartialEq, Eq, Structural, Debug, Clone, Copy)]
pub enum ParseError {
    /// The title does not start with the contribution marker.
    NotAContribution,
    /// The body holds no `---`.
    MissingDelimiter,
    /// No header line gives `language:`.
    MissingLanguage,
    /// No header line gives `answer:`.
    MissingAnswer,
}

/// A contribution read from an issue: the title without its marker, the two
/// required header fields, the header itself and the article after the
/// first `---`.
pub struct Contribution {
    pub title: String,
    pub language: String,
    pub answer: String,
    pub header: String,
    pub content: String,
}

pub struct ContributionView {
    pub title: Seq<char>,
    pub language: Seq<char>,
    pub answer: Seq<char>,
    pub header: Seq<char>,
    pub content: Seq<char>,
}

impl View for Contribution {
    type V = ContributionView;

    open spec fn view(&self) -> ContributionView {
        ContributionView {
            title: self.title@,
            language: self.language@,
            answer: self.answer@,
            header: self.header@,
            content: self.content@,
        }
    }
}

/// The lines of the header of `body`: what precedes its first `---`.
pub open spec fn header_lines(body: Seq<char>, d: int) -> Seq<Seq<char>> {
    split_lines(body.subrange(0, d))
}

/// What reading an issue with this title and body gives.
pub open spec fn parse_spec(title: Seq<char>, body: Seq<char>) -> Result<ContributionView, ParseError> {
    if !starts_with(title, marker()) {
        Err(ParseError::NotAContribution)
    } else {
        match first_delim(body) {
            None => Err(ParseError::MissingDelimiter),
            Some(d) => {
                let lines = header_lines(body, d);
                match find_field(lines, language_key()) {
                    None => Err(ParseError::MissingLanguage),
                    Some(language) => match find_field(lines, answer_key()) {
                        None => Err(ParseError::MissingAnswer),
                        Some(answer) => Ok(
                            ContributionView {
                                title: trim(title.subrange(marker().len() as int, title.len() as int)),
                                language,
                                answer,
                                header: body.subrange(0, d),
                                content: body.subrange(d + 3, body.len() as int),
                            },
                        ),
                    },
                }
            },
        }
    }
}

/// Reads a contribution from an issue's title and body.
pub fn parse_contribution(title: &str, body: &str) -> (r: Result<Contribution, ParseError>)
    ensures
        match r {
            Ok(c) => parse_spec(title@, body@) == Ok::<ContributionView, ParseError>(c@),
            Err(e) => parse_spec(title@, body@) == Err::<ContributionView, ParseError>(e),
        },
{
    let t = chars_of(title);
    let m = chars_of("[Contribute]");
    assert(t@.subrange(0, t@.len() as int) =~= t@);
    if !matches_at(&t, 0, &m) {
        return Err(ParseError::NotAContribution);
    }
    let b = chars_of(body);
    match find_delim(&b, 0) {
        None => {
            proof {
                lemma_no_delim(b@);
            }
            Err(ParseError::MissingDelimiter)
        },
        Some(d) => {
            proof {
                lemma_first_delim_is(b@, d as int);
            }
            let blen = b.len();
            assert(d + 3 <= blen);
            let body_start = d + 3;
            let lines = lines_of(&b, 0, d);
            let language = match find_field_in(&lines, &chars_of("language:")) {
                None => {
                    return Err(ParseError::MissingLanguage);
                },
                Some(v) => v,
            };
            let answer = match find_field_in(&lines, &chars_of("answer:")) {
                None => {
                    return Err(ParseError::MissingAnswer);
                },
                Some(v) => v,
            };
            let (ta, tb) = trim_range(&t, m.len(), t.len());
            let c = Contribution {
                title: string_of_range(&t, ta, tb),
                language,
                answer,
                header: string_of_range(&b, 0, d),
                content: string_of_range(&b, body_start, b.len()),
            };
            assert(c@ == parse_spec(title@, body@)->Ok_0);
            Ok(c)
        },
    }
}

/// The header and the content of an article file: the file opens with
/// `---`, and the header runs to the next `---`.
pub open spec fn article_parts(file: Seq<char>) -> Option<(Seq<char>, Seq<char>)> {
    if delim_at(file, 0) {
        let rest = file.subrange(3, file.len() as int);
        match first_delim(rest) {
            Some(d) => Some((rest.subrange(0, d), rest.subrange(d + 3, rest.len() as int))),
            None => None,
        }
    } else {
        None
    }
}

/// Splits an article file into its header and its content.
pub fn split_article(file: &str) -> (r: Option<(String, String)>)
    ensures
        match r {
            Some(p) => article_parts(file@) == Some((p.0@, p.1@)),
            None => article_parts(file@) is None,
        },
{
    let v = chars_of(file);
    if v.len() < 3 || v[0] != '-' || v[1] != '-' || v[2] != '-' {
        return None;
    }
    let ghost rest = v@.subrange(3, v@.len() as int);
    assert forall|j: int| 0 <= j implies #[trigger] delim_at(rest, j) == delim_at(v@, j + 3) by {
    }
    match find_delim(&v, 3) {
        None => {
            assert forall|j: int| !delim_at(rest, j) by {
                if 0 <= j {
                    assert(!delim_at(v@, j + 3));
                }
            }
            None
        },
        Some(i) => {
            proof {
                assert forall|j: int| 0 <= j < i - 3 implies !delim_at(rest, j) by {
                    assert(!delim_at(v@, j + 3));
                }
                lemma_first_delim_is(rest, i - 3);
                assert(rest.subrange(0, i - 3) =~= v@.subrange(3, i as int));
                assert(rest.subrange(i - 3 + 3, rest.len() as int) =~= v@.subrange(i + 3, v@.len() as int));
            }
            Some((string_of_range(&v, 3, i), string_of_range(&v, i + 3, v.len())))
        },
    }
}

} // verus!


verus! {

/// The value of `key` in a header: that of its first line whose trimmed
/// text starts with `key`.
pub fn field_of(header: &str, key: &str) -> (r: Option<String>)
    ensures
        match r {
            Some(v) => find_field(split_lines(header@), key@) == Some(v@),
            None => find_field(split_lines(header@), key@) is None,
        },
{
    let h = chars_of(header);
    let lines = lines_of(&h, 0, h.len());
    assert(h@.subrange(0, h@.len() as int) =~= h@);
    find_field_in(&lines, &chars_of(key))
}

} // verus!
