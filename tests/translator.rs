use github_wiki_bot::translator::{ContentFile, IndexFile};

#[test]
fn index_file_from_str() {
    let f = IndexFile::from_str("# Index", "en/math/index.md");
    assert_eq!(f.path(), "en/math/index.htmlpart");
    assert_eq!(f.content(), "# Index");
}

#[test]
fn content_file_from_str() {
    let f = ContentFile::from_str("---\ncategory: math\n---\n# Pi\n---\nmore", "en/pi.md");
    assert_eq!(f.path(), "en/pi.htmlpart");
    assert_eq!(f.header, "\ncategory: math\n");
    assert_eq!(f.content(), "\n# Pi\n---\nmore");
}
