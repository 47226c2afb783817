//! The stamping of a contributed article: its header gets the author and
//! the time of the last update, and the article is framed by `---` lines
//! so that reading it back gives the header's fields and the two stamped
//! ones.
use vstd::prelude::*;
use crate::text::{
    chars_of, is_space, lemma_trim_end_keeps_prefix, push_range, push_str, starts_with, trim, trim_end,
    trim_start,
};
use crate::front_matter::{
    answer_key, article_parts, author_key, delim_at, field_value, find_field, first_delim,
    is_first_delim, language_key, last_update_key, lemma_first_delim_is, lemma_split_lines_nonempty,
    split_lines,
};

verus! {

/// The header with a final newline, so that a line can follow it.
pub open spec fn normalized_header(h: Seq<char>) -> Seq<char> {
    if h.len() == 0 || h.last() == '\n' {
        h
    } else {
        h.push('\n')
    }
}

pub open spec fn author_line(author: Seq<char>) -> Seq<char> {
    "author: "@ + author
}

pub open spec fn update_line(timestamp: Seq<char>) -> Seq<char> {
    "last_update: "@ + timestamp
}

/// The article file: its header, stamped with the author and the time of
/// the last update, between two `---`, then the content.
pub open spec fn stamped(h: Seq<char>, c: Seq<char>, author: Seq<char>, timestamp: Seq<char>) -> Seq<char> {
    "---\n"@ + normalized_header(h) + author_line(author) + "\n"@ + update_line(timestamp) + "\n"@
        + "---"@ + c
}

/// Writes the article file for a header and content, stamped with the
/// author and the time of the last update.
pub fn stamp_header(header: &str, content: &str, author: &str, timestamp: &str) -> (r: String)
    ensures
        r@ == stamped(header@, content@, author@, timestamp@),
{
    let h = chars_of(header);
    let mut out = String::new();
    push_str(&mut out, "---\n");
    push_range(&mut out, &h, 0, h.len());
    assert(h@.subrange(0, h@.len() as int) =~= h@);
    if h.len() > 0 && h[h.len() - 1] != '\n' {
        out.push('\n');
    }
    let ghost after_header = out@;
    assert(after_header =~= "---\n"@ + normalized_header(header@));
    push_str(&mut out, "author: ");
    push_str(&mut out, author);
    push_str(&mut out, "\n");
    push_str(&mut out, "last_update: ");
    push_str(&mut out, timestamp);
    push_str(&mut out, "\n");
    push_str(&mut out, "---");
    push_str(&mut out, content);
    assert(out@ =~= stamped(header@, content@, author@, timestamp@));
    out
}

} // verus!

verus! {

pub open spec fn is_digit_char(c: char) -> bool {
    '0' <= c && c <= '9'
}

/// The year of a timestamp: four digits for the years 0 to 9999, and
/// otherwise a sign and at least four digits.
pub open spec fn is_year_text(y: Seq<char>) -> bool {
    ||| y.len() == 4 && forall|i: int| 0 <= i < 4 ==> is_digit_char(#[trigger] y[i])
    ||| y.len() >= 5 && (y[0] == '+' || y[0] == '-') && forall|i: int|
        1 <= i < y.len() ==> is_digit_char(#[trigger] y[i])
}

/// An RFC 3339 timestamp in UTC, to the second: the year, then
/// `-MM-DDTHH:MM:SSZ` with two digits in each field.
pub open spec fn is_utc_timestamp(t: Seq<char>) -> bool {
    let y = t.len() - 16;
    &&& t.len() >= 20
    &&& is_year_text(t.subrange(0, y))
    &&& t[y] == '-' && is_digit_char(t[y + 1]) && is_digit_char(t[y + 2])
    &&& t[y + 3] == '-' && is_digit_char(t[y + 4]) && is_digit_char(t[y + 5])
    &&& t[y + 6] == 'T' && is_digit_char(t[y + 7]) && is_digit_char(t[y + 8])
    &&& t[y + 9] == ':' && is_digit_char(t[y + 10]) && is_digit_char(t[y + 11])
    &&& t[y + 12] == ':' && is_digit_char(t[y + 13]) && is_digit_char(t[y + 14])
    &&& t[y + 15] == 'Z'
}

/// A timestamp holds no line break and no `---`, and has no whitespace
/// around it.
pub proof fn lemma_timestamp_is_plain(t: Seq<char>)
    requires
        is_utc_timestamp(t),
    ensures
        no_newline(t),
        no_delim(t),
        trim(t) == t,
{
    let y = t.len() - 16;
    let yr = t.subrange(0, y);
    assert forall|i: int| 0 <= i < y implies #[trigger] t[i] == yr[i] by {}
    assert forall|i: int| 0 <= i < t.len() implies (is_digit_char(#[trigger] t[i]) || t[i] == '-' || t[i]
        == '+' || t[i] == ':' || t[i] == 'T' || t[i] == 'Z') by {
        if i < y {
            assert(t[i] == yr[i]);
        }
    }
    assert forall|i: int| 0 <= i < t.len() - 1 && #[trigger] t[i] == '-' implies t[i + 1] != '-' by {
        if i < y - 1 {
            assert(t[i] == yr[i]);
            assert(t[i + 1] == yr[i + 1]);
        } else if i == y - 1 {
            assert(t[i] == yr[i]);
        }
    }
    assert forall|i: int| !delim_at(t, i) by {
        if delim_at(t, i) {
            assert(t[i] == '-' && t[i + 1] == '-');
        }
    }
    assert(t[0] == yr[0]);
    assert(!is_space(t[0]));
    assert(trim_start(t) == t);
    assert(t.last() == 'Z');
    assert(trim_end(t) == t);
}

/// Relies on `chrono::Utc::now` for the time, and on
/// `DateTime::to_rfc3339_opts(SecondsFormat::Secs, true)` for its text:
/// the year in four digits (or, outside 0 to 9999, signed and padded to
/// five characters), each other field in two digits, and `Z` for UTC.
#[verifier::external_body]
pub(crate) fn utc_now_rfc3339() -> (r: String)
    ensures
        is_utc_timestamp(r@),
{
    chrono::Utc::now().to_rfc3339_opts(chrono::SecondsFormat::Secs, true)
}

/// Stamps the article with its author and the current time in UTC.
pub fn update_file_contents(header: &str, content: &str, author: &str) -> (r: String)
    ensures
        exists|t: Seq<char>| is_utc_timestamp(t) && r@ == stamped(header@, content@, author@, t),
{
    let now = utc_now_rfc3339();
    stamp_header(header, content, author, now.as_str())
}

} // verus!

verus! {

/// `s` holds no `---`.
pub open spec fn no_delim(s: Seq<char>) -> bool {
    forall|i: int| !delim_at(s, i)
}

/// `s` holds no line break.
pub open spec fn no_newline(s: Seq<char>) -> bool {
    forall|i: int| 0 <= i < s.len() ==> s[i] != '\n'
}

proof fn lemma_no_delim_concat(x: Seq<char>, y: Seq<char>)
    requires
        no_delim(x),
        no_delim(y),
        x.len() == 0 || y.len() == 0 || x.last() != '-' || y[0] != '-',
    ensures
        no_delim(x + y),
{
    let s = x + y;
    assert forall|i: int| !delim_at(s, i) by {
        if delim_at(s, i) {
            if i + 3 <= x.len() {
                assert(delim_at(x, i));
            } else if i >= x.len() {
                assert(delim_at(y, i - x.len()));
            } else {
                assert(s[x.len() - 1] == x.last());
                assert(s[x.len() as int] == y[0]);
            }
        }
    }
}

proof fn lemma_no_dash_no_delim(s: Seq<char>)
    requires
        forall|i: int| 0 <= i < s.len() ==> s[i] != '-',
    ensures
        no_delim(s),
{
    assert forall|i: int| !delim_at(s, i) by {
        if delim_at(s, i) {
            assert(s[i] == '-');
        }
    }
}

proof fn lemma_split_lines_no_newline(s: Seq<char>)
    requires
        no_newline(s),
    ensures
        split_lines(s) == seq![s],
    decreases s.len(),
{
    if s.len() > 0 {
        let p = s.drop_last();
        assert(no_newline(p));
        lemma_split_lines_no_newline(p);
        assert(s.last() != '\n');
        assert(p.push(s.last()) =~= s);
        assert(split_lines(s) =~= seq![s]);
    } else {
        assert(s =~= Seq::<char>::empty());
    }
}

proof fn lemma_split_lines_concat(x: Seq<char>, y: Seq<char>)
    requires
        x.len() == 0 || x.last() == '\n',
    ensures
        split_lines(x + y) == split_lines(x).drop_last() + split_lines(y),
    decreases y.len(),
{
    lemma_split_lines_nonempty(x);
    lemma_split_lines_nonempty(y);
    if y.len() == 0 {
        assert(x + y =~= x);
        if x.len() == 0 {
            assert(split_lines(x).drop_last() + split_lines(y) =~= split_lines(x));
        } else {
            assert(split_lines(x).drop_last() + split_lines(y) =~= split_lines(x));
        }
    } else {
        let y0 = y.drop_last();
        lemma_split_lines_concat(x, y0);
        lemma_split_lines_nonempty(y0);
        assert((x + y).drop_last() =~= x + y0);
        assert((x + y).last() == y.last());
        assert(split_lines(x + y) =~= split_lines(x).drop_last() + split_lines(y));
    }
}

proof fn lemma_find_field_concat(a: Seq<Seq<char>>, b: Seq<Seq<char>>, k: Seq<char>)
    ensures
        find_field(a + b, k) == (if find_field(a, k) is Some {
            find_field(a, k)
        } else {
            find_field(b, k)
        }),
    decreases a.len(),
{
    if a.len() == 0 {
        assert(a + b =~= b);
    } else {
        lemma_find_field_concat(a.drop_first(), b, k);
        assert((a + b).drop_first() =~= a.drop_first() + b);
        assert((a + b)[0] == a[0]);
    }
}

proof fn lemma_trim_start_len(s: Seq<char>)
    ensures
        trim_start(s).len() <= s.len(),
        s.len() > 0 && is_space(s[0]) ==> trim_start(s).len() < s.len(),
    decreases s.len(),
{
    if s.len() > 0 && is_space(s[0]) {
        lemma_trim_start_len(s.drop_first());
    }
}

proof fn lemma_trim_end_len(s: Seq<char>)
    ensures
        trim_end(s).len() <= s.len(),
        s.len() > 0 && is_space(s.last()) ==> trim_end(s).len() < s.len(),
    decreases s.len(),
{
    if s.len() > 0 && is_space(s.last()) {
        lemma_trim_end_len(s.drop_last());
    }
}

proof fn lemma_trimmed_ends(v: Seq<char>)
    requires
        trim(v) == v,
        v.len() > 0,
    ensures
        !is_space(v[0]),
        !is_space(v.last()),
{
    lemma_trim_start_len(v);
    lemma_trim_end_len(trim_start(v));
    if !is_space(v[0]) {
        assert(trim_start(v) == v);
        lemma_trim_end_len(v);
    }
}

/// A line `key` + ` ` + `v` holds `key`, with the value `v`.
proof fn lemma_key_line(key: Seq<char>, v: Seq<char>)
    requires
        key.len() > 0,
        !is_space(key[0]),
        !is_space(key.last()),
        trim(v) == v,
    ensures
        trim(key + seq![' '] + v).subrange(0, key.len() as int) == key,
        starts_with(trim(key + seq![' '] + v), key),
        field_value(key + seq![' '] + v, key) == v,
{
    let line = key + seq![' '] + v;
    assert(line[0] == key[0]);
    assert(trim_start(line) == line);
    if v.len() > 0 {
        lemma_trimmed_ends(v);
        assert(line.last() == v.last());
        assert(trim_end(line) == line);
        assert(line.subrange(key.len() as int, line.len() as int) =~= seq![' '] + v);
        assert((seq![' '] + v).drop_first() =~= v);
        assert(trim_start(seq![' '] + v) == trim_start(v));
        lemma_trimmed_start_is_itself(v);
    } else {
        assert(line.drop_last() =~= key);
        assert(trim_end(line) == trim_end(key));
        assert(trim_end(key) == key);
        assert(line.subrange(0, key.len() as int) =~= key);
        assert(key.subrange(key.len() as int, key.len() as int) =~= Seq::<char>::empty());
        assert(v =~= Seq::<char>::empty());
    }
    assert(trim(line).subrange(0, key.len() as int) =~= key);
}

proof fn lemma_trimmed_start_is_itself(v: Seq<char>)
    requires
        trim(v) == v,
        v.len() > 0,
    ensures
        trim_start(v) == v,
{
    lemma_trimmed_ends(v);
}

} // verus!

verus! {

proof fn lemma_differs_at(t: Seq<char>, key: Seq<char>, j: int)
    requires
        0 <= j < key.len(),
        j < t.len(),
        t[j] != key[j],
    ensures
        !starts_with(t, key),
{
    if starts_with(t, key) {
        assert(t.subrange(0, key.len() as int)[j] == t[j]);
    }
}

proof fn lemma_empty_line_has_no_field(k: Seq<char>)
    requires
        k.len() > 0,
    ensures
        find_field(seq![Seq::<char>::empty()], k) is None,
{
    let e = Seq::<char>::empty();
    assert(trim_start(e) == e);
    assert(trim_end(e) == e);
    assert(seq![e][0] == e);
    assert(!starts_with(trim(e), k));
    assert(seq![e].drop_first() =~= Seq::<Seq<char>>::empty());
    assert(find_field(Seq::<Seq<char>>::empty(), k) is None);
}

/// The header lines of `normalized_header(h)`, but its last (empty) one,
/// give each field as `h` does.
proof fn lemma_normalized_lines(h: Seq<char>, k: Seq<char>)
    requires
        k.len() > 0,
    ensures
        find_field(split_lines(normalized_header(h)).drop_last(), k) == find_field(split_lines(h), k),
{
    lemma_split_lines_nonempty(h);
    if h.len() == 0 {
        assert(split_lines(h) =~= seq![Seq::<char>::empty()]);
        lemma_empty_line_has_no_field(k);
        assert(split_lines(h).drop_last() =~= Seq::<Seq<char>>::empty());
    } else if h.last() == '\n' {
        let l = split_lines(h);
        assert(l =~= split_lines(h.drop_last()).push(Seq::empty()));
        assert(l =~= l.drop_last() + seq![Seq::<char>::empty()]);
        lemma_find_field_concat(l.drop_last(), seq![Seq::<char>::empty()], k);
        lemma_empty_line_has_no_field(k);
    } else {
        let hn = h.push('\n');
        assert(hn.drop_last() =~= h);
        assert(split_lines(hn).drop_last() =~= split_lines(h));
    }
}

/// What reading the header of a stamped article gives: the rest of the
/// opening `---` line, the header, then the two stamped lines.
pub open spec fn stamped_region(h: Seq<char>, author: Seq<char>, timestamp: Seq<char>) -> Seq<char> {
    "\n"@ + normalized_header(h) + author_line(author) + "\n"@ + update_line(timestamp) + "\n"@
}

/// The stamped article opens with `---`, and its header runs to the
/// `---` that the stamping wrote.
proof fn lemma_stamped_parts(body: Seq<char>, d: int, author: Seq<char>, timestamp: Seq<char>)
    requires
        is_first_delim(body, d),
        no_delim(author),
        no_delim(timestamp),
    ensures
        article_parts(
            stamped(body.subrange(0, d), body.subrange(d + 3, body.len() as int), author, timestamp),
        ) == Some((stamped_region(body.subrange(0, d), author, timestamp), body.subrange(d + 3, body.len() as int))),
{
    reveal_strlit("---\n");
    reveal_strlit("\n");
    reveal_strlit("---");
    reveal_strlit("author: ");
    reveal_strlit("last_update: ");
    let h = body.subrange(0, d);
    let c = body.subrange(d + 3, body.len() as int);
    let hn = normalized_header(h);
    let nl: Seq<char> = "\n"@;
    let al = author_line(author);
    let ul = update_line(timestamp);
    let region = stamped_region(h, author, timestamp);
    assert forall|j: int| !delim_at(h, j) by {
        if delim_at(h, j) {
            assert(delim_at(body, j));
        }
    }
    lemma_no_dash_no_delim(nl);
    if !(h.len() == 0 || h.last() == '\n') {
        lemma_no_delim_concat(h, nl);
        assert(h + nl =~= hn);
    }
    assert(no_delim(hn));
    lemma_no_dash_no_delim("author: "@);
    lemma_no_dash_no_delim("last_update: "@);
    lemma_no_delim_concat("author: "@, author);
    lemma_no_delim_concat("last_update: "@, timestamp);
    lemma_no_delim_concat(nl, hn);
    assert(al[0] == 'a');
    lemma_no_delim_concat(nl + hn, al);
    lemma_no_delim_concat(nl + hn + al, nl);
    assert(ul[0] == 'l');
    lemma_no_delim_concat(nl + hn + al + nl, ul);
    lemma_no_delim_concat(nl + hn + al + nl + ul, nl);
    assert(no_delim(region));
    let file = stamped(h, c, author, timestamp);
    let rest = file.subrange(3, file.len() as int);
    assert(rest =~= region + "---"@ + c);
    assert(delim_at(file, 0));
    let r = region.len() as int;
    assert(region.last() == '\n');
    assert forall|j: int| 0 <= j < r implies !delim_at(rest, j) by {
        if delim_at(rest, j) {
            if j + 3 <= r {
                assert(delim_at(region, j));
            } else {
                assert(rest[r - 1] == region.last());
            }
        }
    }
    assert(delim_at(rest, r));
    lemma_first_delim_is(rest, r);
    assert(rest.subrange(0, r) =~= region);
    assert(rest.subrange(r + 3, rest.len() as int) =~= c);
}

/// The lines of the stamped header.
proof fn lemma_stamped_lines(h: Seq<char>, author: Seq<char>, timestamp: Seq<char>)
    requires
        no_newline(author),
        no_newline(timestamp),
    ensures
        split_lines(stamped_region(h, author, timestamp)) == seq![Seq::<char>::empty()] + split_lines(
            normalized_header(h),
        ).drop_last() + seq![author_line(author), update_line(timestamp), Seq::<char>::empty()],
{
    reveal_strlit("\n");
    reveal_strlit("author: ");
    reveal_strlit("last_update: ");
    let hn = normalized_header(h);
    let nl: Seq<char> = "\n"@;
    let al = author_line(author);
    let ul = update_line(timestamp);
    let e = Seq::<char>::empty();
    assert(no_newline(al));
    assert(no_newline(ul));
    lemma_split_lines_no_newline(al);
    lemma_split_lines_no_newline(ul);
    assert((ul + nl).drop_last() =~= ul);
    assert(split_lines(ul + nl) =~= seq![ul, e]);
    assert((al + nl).drop_last() =~= al);
    assert(split_lines(al + nl) =~= seq![al, e]);
    lemma_split_lines_concat(al + nl, ul + nl);
    let q2 = al + nl + (ul + nl);
    assert(split_lines(q2) =~= seq![al, ul, e]);
    lemma_split_lines_concat(hn, q2);
    let q1 = hn + q2;
    assert(nl.drop_last() =~= e);
    assert(split_lines(e) == seq![e]);
    assert(split_lines(nl) =~= seq![e, e]);
    lemma_split_lines_concat(nl, q1);
    assert(stamped_region(h, author, timestamp) =~= nl + q1);
    assert(split_lines(stamped_region(h, author, timestamp)) =~= seq![e] + split_lines(hn).drop_last()
        + seq![al, ul, e]);
}

/// Among the two stamped lines and an empty one, the stamped fields read
/// as stamped, and `language` and `answer` read as absent.
/// A line `key` + ` ` + `v`, whatever `v` holds, starts with `key` once
/// trimmed.
proof fn lemma_key_line_prefix(key: Seq<char>, v: Seq<char>)
    requires
        key.len() > 0,
        !is_space(key[0]),
        !is_space(key.last()),
    ensures
        starts_with(trim(key + seq![' '] + v), key),
        trim(key + seq![' '] + v).subrange(0, key.len() as int) == key,
{
    let line = key + seq![' '] + v;
    assert(line[0] == key[0]);
    assert(trim_start(line) == line);
    assert(line.subrange(0, key.len() as int) =~= key);
    lemma_trim_end_keeps_prefix(line, key);
}

proof fn lemma_stamped_tail(author: Seq<char>, timestamp: Seq<char>)
    requires
        is_utc_timestamp(timestamp),
    ensures
        ({
            let tail = seq![author_line(author), update_line(timestamp), Seq::<char>::empty()];
            &&& find_field(tail, language_key()) is None
            &&& find_field(tail, answer_key()) is None
            &&& find_field(tail, author_key()) == Some(field_value(author_line(author), author_key()))
            &&& trim(author) == author ==> field_value(author_line(author), author_key()) == author
            &&& find_field(tail, last_update_key()) == Some(timestamp)
        }),
{
    reveal_strlit("author: ");
    reveal_strlit("author:");
    reveal_strlit("last_update: ");
    reveal_strlit("last_update:");
    reveal_strlit("language:");
    reveal_strlit("answer:");
    lemma_timestamp_is_plain(timestamp);
    let al = author_line(author);
    let ul = update_line(timestamp);
    let e = Seq::<char>::empty();
    let tail = seq![al, ul, e];
    lemma_key_line_prefix("author:"@, author);
    if trim(author) == author {
        lemma_key_line("author:"@, author);
    }
    lemma_key_line("last_update:"@, timestamp);
    assert("author:"@ + seq![' '] =~= "author: "@);
    assert("last_update:"@ + seq![' '] =~= "last_update: "@);
    assert("author:"@ + seq![' '] + author =~= al);
    assert("last_update:"@ + seq![' '] + timestamp =~= ul);
    let ta = trim(al);
    let tu = trim(ul);
    assert(ta[0] == ta.subrange(0, 7)[0]);
    assert(ta[1] == ta.subrange(0, 7)[1]);
    assert(tu[0] == tu.subrange(0, 12)[0]);
    assert(tu[2] == tu.subrange(0, 12)[2]);
    lemma_differs_at(ta, language_key(), 0);
    lemma_differs_at(ta, answer_key(), 1);
    lemma_differs_at(ta, last_update_key(), 0);
    lemma_differs_at(tu, language_key(), 2);
    lemma_differs_at(tu, answer_key(), 0);
    lemma_differs_at(tu, author_key(), 0);
    lemma_empty_line_has_no_field(language_key());
    lemma_empty_line_has_no_field(answer_key());
    assert(tail[0] == al);
    assert(tail.drop_first() =~= seq![ul, e]);
    assert(seq![ul, e][0] == ul);
    assert(seq![ul, e].drop_first() =~= seq![e]);
    assert(find_field(seq![ul, e], language_key()) == find_field(seq![e], language_key()));
    assert(find_field(seq![ul, e], answer_key()) == find_field(seq![e], answer_key()));
    assert(find_field(seq![ul, e], last_update_key()) == Some(timestamp));
    assert(find_field(tail, language_key()) == find_field(seq![ul, e], language_key()));
    assert(find_field(tail, answer_key()) == find_field(seq![ul, e], answer_key()));
    assert(find_field(tail, last_update_key()) == find_field(seq![ul, e], last_update_key()));
}

/// Stamping the header of a contribution and reading the article back
/// gives the header's own lines, then the author line and the
/// last-update line, once each: `language` and `answer` read as they did,
/// and `author` and `last_update` read as stamped wherever the header did
/// not give them already (the author as its line gives it, which is the
/// author itself when it has no whitespace around it).
pub proof fn lemma_stamp_round_trip(body: Seq<char>, d: int, author: Seq<char>, timestamp: Seq<char>)
    requires
        first_delim(body) == Some(d),
        no_newline(author),
        no_delim(author),
        is_utc_timestamp(timestamp),
    ensures
        ({
            let h = body.subrange(0, d);
            let c = body.subrange(d + 3, body.len() as int);
            let lines = split_lines(stamped_region(h, author, timestamp));
            &&& article_parts(stamped(h, c, author, timestamp)) == Some(
                (stamped_region(h, author, timestamp), c),
            )
            &&& lines == seq![Seq::<char>::empty()] + split_lines(normalized_header(h)).drop_last()
                + seq![author_line(author), update_line(timestamp), Seq::<char>::empty()]
            &&& find_field(lines, language_key()) == find_field(split_lines(h), language_key())
            &&& find_field(lines, answer_key()) == find_field(split_lines(h), answer_key())
            &&& find_field(split_lines(h), author_key()) is None ==> find_field(lines, author_key())
                == Some(field_value(author_line(author), author_key()))
            &&& find_field(split_lines(h), author_key()) is None && trim(author) == author ==> find_field(
                lines,
                author_key(),
            ) == Some(author)
            &&& find_field(split_lines(h), last_update_key()) is None ==> find_field(
                lines,
                last_update_key(),
            ) == Some(timestamp)
        }),
{
    assert(is_first_delim(body, d));
    let h = body.subrange(0, d);
    lemma_timestamp_is_plain(timestamp);
    lemma_stamped_parts(body, d, author, timestamp);
    lemma_stamped_lines(h, author, timestamp);
    lemma_stamped_tail(author, timestamp);
    let e = Seq::<char>::empty();
    let lh = split_lines(normalized_header(h)).drop_last();
    let tail = seq![author_line(author), update_line(timestamp), e];
    let lines = split_lines(stamped_region(h, author, timestamp));
    assert forall|k: Seq<char>| k.len() > 0 implies #[trigger] find_field(lines, k) == (if find_field(
        split_lines(h),
        k,
    ) is Some {
        find_field(split_lines(h), k)
    } else {
        find_field(tail, k)
    }) by {
        lemma_find_field_concat(seq![e] + lh, tail, k);
        lemma_find_field_concat(seq![e], lh, k);
        lemma_empty_line_has_no_field(k);
        lemma_normalized_lines(h, k);
    }
    reveal_strlit("author:");
    reveal_strlit("last_update:");
    reveal_strlit("language:");
    reveal_strlit("answer:");
    assert(language_key().len() > 0);
    assert(answer_key().len() > 0);
    assert(author_key().len() > 0);
    assert(last_update_key().len() > 0);
}

} // verus!

verus! {

/// The round trip for what `update_file_contents` returns: whatever time
/// it stamped, the article reads back with the contribution's content, the
/// header's `language` and `answer`, the author, and a timestamp for
/// `last_update`, wherever the header did not give those two already.
pub proof fn lemma_update_file_contents_round_trip(
    body: Seq<char>,
    d: int,
    author: Seq<char>,
    file: Seq<char>,
)
    requires
        first_delim(body) == Some(d),
        no_newline(author),
        no_delim(author),
        exists|t: Seq<char>|
            is_utc_timestamp(t) && file == stamped(
                body.subrange(0, d),
                body.subrange(d + 3, body.len() as int),
                author,
                t,
            ),
    ensures
        article_parts(file) is Some,
        article_parts(file)->Some_0.1 == body.subrange(d + 3, body.len() as int),
        ({
            let h = split_lines(body.subrange(0, d));
            let lines = split_lines(article_parts(file)->Some_0.0);
            &&& find_field(lines, language_key()) == find_field(h, language_key())
            &&& find_field(lines, answer_key()) == find_field(h, answer_key())
            &&& find_field(h, author_key()) is None && trim(author) == author ==> find_field(
                lines,
                author_key(),
            ) == Some(author)
            &&& find_field(h, last_update_key()) is None ==> exists|t: Seq<char>|
                is_utc_timestamp(t) && find_field(lines, last_update_key()) == Some(t)
        }),
{
    let t = choose|t: Seq<char>|
        is_utc_timestamp(t) && file == stamped(
            body.subrange(0, d),
            body.subrange(d + 3, body.len() as int),
            author,
            t,
        );
    lemma_stamp_round_trip(body, d, author, t);
}

} // verus!
