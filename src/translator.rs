//! The markdown files of a wiki as the translator to HTML reads them: an
//! index page, or an article with a front-matter header; each is written
//! next to its source as an `.htmlpart` file.
use vstd::prelude::*;
use crate::text::{chars_of, ends_with, push_range, push_str};
use crate::front_matter::{article_parts, split_article};

verus! {

/// Where the HTML of a markdown file goes: its path with `.htmlpart` in
/// place of `.md`.
pub open spec fn htmlpart_path(path: Seq<char>) -> Seq<char> {
    path.subrange(0, path.len() - 3) + ".htmlpart"@
}

fn htmlpart_path_exec(path: &str) -> (r: String)
    requires
        ends_with(path@, ".md"@),
    ensures
        r@ == htmlpart_path(path@),
{
    let v = chars_of(path);
    proof {
        reveal_strlit(".md");
    }
    let mut out = String::new();
    push_range(&mut out, &v, 0, v.len() - 3);
    push_str(&mut out, ".htmlpart");
    out
}

/// The index page of a directory.
pub struct IndexFile {
    pub path: String,
    pub content: String,
}

impl IndexFile {
    /// An index page with this markdown, read from `path`, which names a
    /// `.md` file.
    pub fn from_str(content: &str, path: &str) -> (r: IndexFile)
        requires
            ends_with(path@, ".md"@),
        ensures
            r.path@ == htmlpart_path(path@),
            r.content@ == content@,
    {
        IndexFile { path: htmlpart_path_exec(path), content: content.to_owned() }
    }

    pub fn content(&self) -> (r: &str)
        ensures
            r@ == self.content@,
    {
        self.content.as_str()
    }

    pub fn path(&self) -> (r: &str)
        ensures
            r@ == self.path@,
    {
        self.path.as_str()
    }
}

/// An article: its front-matter header, as text, and its markdown.
pub struct ContentFile {
    pub path: String,
    pub header: String,
    pub content: String,
}

impl ContentFile {
    /// An article read from `path`, which names a `.md` file; the text
    /// opens with `---` and holds the header up to the next `---`.
    pub fn from_str(content: &str, path: &str) -> (r: ContentFile)
        requires
            article_parts(content@) is Some,
            ends_with(path@, ".md"@),
        ensures
            r.path@ == htmlpart_path(path@),
            article_parts(content@) == Some((r.header@, r.content@)),
    {
        match split_article(content) {
            Some((header, body)) => ContentFile { path: htmlpart_path_exec(path), header, content: body },
            None => {
                proof {
                    assert(false);
                }
                ContentFile { path: String::new(), header: String::new(), content: String::new() }
            },
        }
    }

    pub fn content(&self) -> (r: &str)
        ensures
            r@ == self.content@,
    {
        self.content.as_str()
    }

    pub fn path(&self) -> (r: &str)
        ensures
            r@ == self.path@,
    {
        self.path.as_str()
    }
}

/// What the search of the wiki knows of an article.
pub struct SearchIndex {
    pub name: String,
    pub tags: Vec<String>,
    pub aliases: Vec<String>,
    pub content_for_search: String,
    pub path: String,
}

} // verus!
