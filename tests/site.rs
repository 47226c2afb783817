use github_wiki_bot::site::{
    group_by_name, Article, ArticleMeta, ArticleSearchIndex, Disambiguation,
    DisambiguationSearchIndex, LanguageSite, SearchIndex, Section,
};

fn article(section: &str, name: &str, filename: &str) -> Article {
    Article {
        section: section.to_string(),
        name: name.to_string(),
        summary: format!("about {name}"),
        filename: filename.to_string(),
        metadata: ArticleMeta {
            category: section.to_string(),
            tags: vec!["t".to_string()],
            aliases: vec![],
            author: Some("alice".to_string()),
            last_update: None,
        },
    }
}

fn site() -> LanguageSite {
    LanguageSite {
        language: "en".to_string(),
        sections: vec![
            Section {
                name: "math".to_string(),
                articles: vec![article("math", "Pi", "pi"), article("math", "Tau", "tau")],
            },
            Section {
                name: "movies".to_string(),
                articles: vec![article("movies", "Pi", "pi-1998")],
            },
        ],
    }
}

#[test]
fn article_count_sums_sections() {
    assert_eq!(site().article_count(), 3);
    let empty = LanguageSite { language: "zh".to_string(), sections: vec![] };
    assert_eq!(empty.article_count(), 0);
}

#[test]
fn article_index_takes_the_fields() {
    let x = ArticleSearchIndex::from_article(article("math", "Pi", "pi"));
    assert_eq!(x.section, "math");
    assert_eq!(x.category, "math");
    assert_eq!(x.name, "Pi");
    assert_eq!(x.filename, "pi");
    assert_eq!(x.summary, "about Pi");
    assert_eq!(x.tags, vec!["t".to_string()]);
}

#[test]
fn disambiguation_index_takes_the_first_name() {
    let x = DisambiguationSearchIndex::from_articles(vec![
        article("math", "Pi", "pi"),
        article("movies", "Pi", "pi-1998"),
    ]);
    assert_eq!(x.name, "Pi");
    assert_eq!(x.articles.len(), 2);
    assert_eq!(x.articles[1].section, "movies");
}

#[test]
fn disambiguation_needs_two_of_one_name() {
    assert!(Disambiguation::try_from(vec![article("math", "Pi", "pi")]).is_err());
    assert!(Disambiguation::try_from(vec![]).is_err());
    assert!(Disambiguation::try_from(vec![
        article("math", "Pi", "pi"),
        article("math", "Tau", "tau")
    ])
    .is_err());
    let d = Disambiguation::try_from(vec![
        article("math", "Pi", "pi"),
        article("movies", "Pi", "pi-1998"),
    ])
    .ok()
    .unwrap();
    assert_eq!(d.name, "Pi");
    assert_eq!(d.articles.len(), 2);
}

#[test]
fn grouping_keeps_first_occurrence_order() {
    let groups = group_by_name(vec![
        article("a", "Pi", "1"),
        article("a", "Tau", "2"),
        article("b", "Pi", "3"),
    ]);
    assert_eq!(groups.len(), 2);
    assert_eq!(groups[0].0, "Pi");
    assert_eq!(groups[0].1.len(), 2);
    assert_eq!(groups[0].1[1].filename, "3");
    assert_eq!(groups[1].0, "Tau");
}

#[test]
fn search_index_lists_shared_names_first() {
    let index = site().collect_search_indexes();
    assert_eq!(index.len(), 2);
    match &index[0] {
        SearchIndex::Disambiguation(d) => {
            assert_eq!(d.name, "Pi");
            assert_eq!(d.articles.len(), 2);
        }
        _ => panic!("expected the entry of a shared name"),
    }
    match &index[1] {
        SearchIndex::Article(a) => assert_eq!(a.name, "Tau"),
        _ => panic!("expected the entry of an article"),
    }
}

#[test]
fn disambiguations_of_a_site() {
    let d = LanguageSite::collect_disambiguation(site().sections);
    assert_eq!(d.len(), 1);
    assert_eq!(d[0].name, "Pi");
    assert_eq!(d[0].articles.len(), 2);
}
