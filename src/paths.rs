//! Where a contributed article is written: `data/<language>/<answer>/<slug>.md`,
//! with a digest of the content added to the name when that file exists.
use vstd::prelude::*;
use crate::text::{chars_of, push_range, push_str, ends_with};

verus! {

/// Title characters as they stand in a file name: ASCII letters in lower
/// case; spaces, dots and slashes as `-`.
pub open spec fn slug_char(c: char) -> char {
    if 'A' <= c && c <= 'Z' {
        ((c as u32) + 32) as char
    } else if c == ' ' || c == '.' || c == '/' {
        '-'
    } else {
        c
    }
}

pub open spec fn slug(title: Seq<char>) -> Seq<char> {
    title.map_values(|c: char| slug_char(c))
}

pub open spec fn article_filename_spec(title: Seq<char>) -> Seq<char> {
    slug(title) + ".md"@
}

fn slug_char_exec(c: char) -> (r: char)
    ensures
        r == slug_char(c),
{
    if 'A' <= c && c <= 'Z' {
        ((c as u8) + 32) as char
    } else if c == ' ' || c == '.' || c == '/' {
        '-'
    } else {
        c
    }
}

/// The file name of an article with this title.
pub fn article_filename(title: &str) -> (r: String)
    ensures
        r@ == article_filename_spec(title@),
{
    let t = chars_of(title);
    let mut out = String::new();
    let mut i: usize = 0;
    while i < t.len()
        invariant
            i <= t.len(),
            out@ == slug(t@.subrange(0, i as int)),
        decreases t.len() - i,
    {
        out.push(slug_char_exec(t[i]));
        assert(slug(t@.subrange(0, i + 1)) =~= slug(t@.subrange(0, i as int)).push(slug_char(t@[i as int])));
        i = i + 1;
    }
    assert(t@.subrange(0, t@.len() as int) =~= t@);
    push_str(&mut out, ".md");
    out
}

/// The path of an article inside the content repository.
pub open spec fn article_path_spec(language: Seq<char>, answer: Seq<char>, filename: Seq<char>) -> Seq<char> {
    "data/"@ + language + "/"@ + answer + "/"@ + filename
}

pub fn article_path(language: &str, answer: &str, filename: &str) -> (r: String)
    ensures
        r@ == article_path_spec(language@, answer@, filename@),
{
    let mut out = String::new();
    push_str(&mut out, "data/");
    push_str(&mut out, language);
    push_str(&mut out, "/");
    push_str(&mut out, answer);
    push_str(&mut out, "/");
    push_str(&mut out, filename);
    assert(out@ =~= article_path_spec(language@, answer@, filename@));
    out
}

/// The MD5 digest of a text, as 32 lowercase hexadecimal digits.
pub uninterp spec fn md5_hex(content: Seq<char>) -> Seq<char>;

/// Relies on `md5::compute`, and on the `Debug` format of `md5::Digest`,
/// which writes each of its 16 bytes as two lowercase hexadecimal digits.
#[verifier::external_body]
fn md5_hex_of(content: &str) -> (r: String)
    ensures
        r@ == md5_hex(content@),
        r@.len() == 32,
{
    format!("{:?}", md5::compute(content))
}

/// A file name without its `.md` extension.
pub open spec fn stem(filename: Seq<char>) -> Seq<char> {
    if ends_with(filename, ".md"@) {
        filename.subrange(0, filename.len() - 3)
    } else {
        filename
    }
}

/// The name that an article takes when its own name is in use:
/// `<stem>-<digest>.md`.
pub open spec fn disambiguated(filename: Seq<char>, digest: Seq<char>) -> Seq<char> {
    stem(filename) + "-"@ + digest + ".md"@
}

/// The name under which an article with this digest is written when
/// `filename` is taken.
pub fn disambiguated_filename(filename: &str, digest: &str) -> (r: String)
    ensures
        r@ == disambiguated(filename@, digest@),
{
    let f = chars_of(filename);
    let n = f.len();
    let mut keep = n;
    if n >= 3 && f[n - 3] == '.' && f[n - 2] == 'm' && f[n - 1] == 'd' {
        keep = n - 3;
    }
    proof {
        reveal_strlit(".md");
        if n >= 3 {
            assert((f@.subrange(n - 3, n as int) == ".md"@) == (f@[n - 3] == '.' && f@[n - 2] == 'm'
                && f@[n - 1] == 'd')) by {
                if f@.subrange(n - 3, n as int) == ".md"@ {
                    assert(f@.subrange(n - 3, n as int)[0] == '.');
                    assert(f@.subrange(n - 3, n as int)[1] == 'm');
                    assert(f@.subrange(n - 3, n as int)[2] == 'd');
                }
                if f@[n - 3] == '.' && f@[n - 2] == 'm' && f@[n - 1] == 'd' {
                    assert(f@.subrange(n - 3, n as int) =~= ".md"@);
                }
            }
        }
    }
    let mut out = String::new();
    push_range(&mut out, &f, 0, keep);
    assert(f@.subrange(0, n as int) =~= f@);
    push_str(&mut out, "-");
    push_str(&mut out, digest);
    push_str(&mut out, ".md");
    assert(out@ =~= disambiguated(filename@, digest@));
    out
}

/// The name under which an article is written: its own name, or, where a
/// file of that name exists, the name disambiguated by the MD5 digest of
/// the new content.
pub open spec fn destination_spec(filename: Seq<char>, content: Seq<char>, exists: bool) -> Seq<char> {
    if exists {
        disambiguated(filename, md5_hex(content))
    } else {
        filename
    }
}

pub fn destination_filename(filename: &str, content: &str, exists: bool) -> (r: String)
    ensures
        r@ == destination_spec(filename@, content@, exists),
{
    if exists {
        let digest = md5_hex_of(content);
        disambiguated_filename(filename, digest.as_str())
    } else {
        filename.to_owned()
    }
}

} // verus!

verus! {

/// An article written where a file of its name exists never takes that
/// name; its new name depends on the content through its digest alone: the
/// same content gives the same name, and contents whose digests differ give
/// different names.
pub proof fn lemma_collision_never_overwrites(filename: Seq<char>, c1: Seq<char>, c2: Seq<char>)
    ensures
        destination_spec(filename, c1, true) != filename,
        c1 == c2 ==> destination_spec(filename, c1, true) == destination_spec(filename, c2, true),
        md5_hex(c1) != md5_hex(c2) ==> destination_spec(filename, c1, true) != destination_spec(
            filename,
            c2,
            true,
        ),
{
    reveal_strlit(".md");
    reveal_strlit("-");
    let s = stem(filename);
    let d1 = md5_hex(c1);
    let d2 = md5_hex(c2);
    let n1 = destination_spec(filename, c1, true);
    let n2 = destination_spec(filename, c2, true);
    assert(s.len() + 3 >= filename.len());
    assert(n1.len() == s.len() + 1 + d1.len() + 3);
    if d1 != d2 && n1 == n2 {
        assert(d1.len() == d2.len());
        assert(n1.subrange(s.len() + 1 as int, s.len() + 1 + d1.len() as int) =~= d1);
        assert(n2.subrange(s.len() + 1 as int, s.len() + 1 + d2.len() as int) =~= d2);
    }
}

} // verus!
