//! The articles of a generated site and its search index: one entry for
//! each article name, or, where several articles share a name, one entry
//! that lists them all.
use vstd::prelude::*;

verus! {

/// The site's settings.
pub struct SiteConfig {
    pub title: String,
    pub public_url: String,
    pub description: String,
}

/// The front matter of an article.
pub struct ArticleMeta {
    pub category: String,
    pub tags: Vec<String>,
    pub aliases: Vec<String>,
    pub author: Option<String>,
    /// The time of the last update, as RFC 3339 text.
    pub last_update: Option<String>,
}

/// An article of a section; its name is the text of its first heading,
/// which may differ from its file name.
pub struct Article {
    pub section: String,
    pub name: String,
    pub summary: String,
    pub filename: String,
    pub metadata: ArticleMeta,
}

/// A directory of articles.
pub struct Section {
    pub name: String,
    pub articles: Vec<Article>,
}

/// What the search knows of an article.
pub struct ArticleSearchIndex {
    pub section: String,
    pub category: String,
    pub tags: Vec<String>,
    pub aliases: Vec<String>,
    pub summary: String,
    pub name: String,
    pub filename: String,
}

/// The articles that share a name.
pub struct DisambiguationSearchIndex {
    pub name: String,
    pub articles: Vec<ArticleSearchIndex>,
}

/// One entry of the search index.
pub enum SearchIndex {
    Article(ArticleSearchIndex),
    Disambiguation(DisambiguationSearchIndex),
}

/// Two or more articles of one name.
pub struct Disambiguation {
    pub name: String,
    pub articles: Vec<Article>,
}

/// `x` is what the search knows of `a`.
pub open spec fn indexes_article(x: ArticleSearchIndex, a: Article) -> bool {
    &&& x.section == a.section
    &&& x.category == a.metadata.category
    &&& x.tags == a.metadata.tags
    &&& x.aliases == a.metadata.aliases
    &&& x.summary == a.summary
    &&& x.name == a.name
    &&& x.filename == a.filename
}

/// `x` lists `arts`, under the name of the first.
pub open spec fn indexes_articles(x: DisambiguationSearchIndex, arts: Seq<Article>) -> bool {
    &&& arts.len() > 0
    &&& x.name@ == arts[0].name@
    &&& x.articles@.len() == arts.len()
    &&& forall|i: int| 0 <= i < arts.len() ==> indexes_article(#[trigger] x.articles@[i], arts[i])
}

impl ArticleSearchIndex {
    pub fn from_article(article: Article) -> (r: ArticleSearchIndex)
        ensures
            indexes_article(r, article),
    {
        ArticleSearchIndex {
            section: article.section,
            category: article.metadata.category,
            tags: article.metadata.tags,
            aliases: article.metadata.aliases,
            summary: article.summary,
            name: article.name,
            filename: article.filename,
        }
    }
}

impl DisambiguationSearchIndex {
    /// The entry that lists `articles` under the name of the first.
    pub fn from_articles(articles: Vec<Article>) -> (r: DisambiguationSearchIndex)
        requires
            articles@.len() > 0,
        ensures
            indexes_articles(r, articles@),
    {
        let name = articles[0].name.clone();
        let ghost arts = articles@;
        let mut entries: Vec<ArticleSearchIndex> = Vec::new();
        for a in it: articles.into_iter()
            invariant
                arts.len() > 0,
                it.seq() == arts,
                entries@.len() == it.index(),
                forall|i: int| 0 <= i < entries@.len() ==> indexes_article(#[trigger] entries@[i], arts[i]),
        {
            entries.push(ArticleSearchIndex::from_article(a));
        }
        DisambiguationSearchIndex { name, articles: entries }
    }
}

/// Whether all of `arts` bear the name of the first.
pub open spec fn share_a_name(arts: Seq<Article>) -> bool {
    forall|i: int| 0 <= i < arts.len() ==> (#[trigger] arts[i]).name@ == arts[0].name@
}

impl Disambiguation {
    /// The articles as a disambiguation: there must be two or more, and
    /// all of one name.
    pub fn try_from(articles: Vec<Article>) -> (r: Result<Disambiguation, ()>)
        ensures
            match r {
                Ok(d) => articles@.len() > 1 && share_a_name(articles@) && d.articles@ == articles@
                    && d.name@ == articles@[0].name@,
                Err(_) => !(articles@.len() > 1 && share_a_name(articles@)),
            },
    {
        if articles.len() <= 1 {
            return Err(());
        }
        let name = articles[0].name.clone();
        let mut i: usize = 0;
        while i < articles.len()
            invariant
                i <= articles@.len(),
                articles@.len() > 1,
                name@ == articles@[0].name@,
                forall|j: int| 0 <= j < i ==> (#[trigger] articles@[j]).name@ == articles@[0].name@,
            decreases articles@.len() - i,
        {
            if articles[i].name != name {
                return Err(());
            }
            i = i + 1;
        }
        Ok(Disambiguation { name, articles })
    }
}

/// The articles of the sections, section by section.
pub open spec fn all_articles(sections: Seq<Section>) -> Seq<Article>
    decreases sections.len(),
{
    if sections.len() == 0 {
        Seq::empty()
    } else {
        all_articles(sections.drop_last()) + sections.last().articles@
    }
}

/// The articles of `arts` that bear the name `name`, in order.
pub open spec fn named(arts: Seq<Article>, name: Seq<char>) -> Seq<Article> {
    arts.filter(|a: Article| a.name@ == name)
}

/// `groups` gathers `arts` by name: one group for each name, which holds
/// the articles of that name in order.
pub open spec fn is_grouping(arts: Seq<Article>, groups: Seq<(String, Vec<Article>)>) -> bool {
    &&& forall|i: int, j: int| 0 <= i < j < groups.len() ==> groups[i].0@ != groups[j].0@
    &&& forall|i: int|
        0 <= i < groups.len() ==> (#[trigger] groups[i]).1@ == named(arts, groups[i].0@) && groups[i].1@.len() > 0
    &&& forall|k: int|
        0 <= k < arts.len() ==> exists|i: int| 0 <= i < groups.len() && (#[trigger] groups[i]).0@ == (
        #[trigger] arts[k]).name@
}

/// The articles of the sections, moved out of them in order.
pub fn flatten_articles(sections: Vec<Section>) -> (r: Vec<Article>)
    ensures
        r@ == all_articles(sections@),
{
    let ghost secs = sections@;
    let mut out: Vec<Article> = Vec::new();
    for s in it: sections.into_iter()
        invariant
            it.seq() == secs,
            out@ == all_articles(secs.subrange(0, it.index() as int)),
    {
        let ghost k = it.index();
        proof {
            assert(secs.subrange(0, k + 1).drop_last() =~= secs.subrange(0, k as int));
        }
        let ghost before = out@;
        let mut arts = s.articles;
        out.append(&mut arts);
        assert(out@ =~= before + s.articles@);
    }
    assert(secs.subrange(0, secs.len() as int) =~= secs);
    out
}

proof fn lemma_named_push(arts: Seq<Article>, a: Article, name: Seq<char>)
    ensures
        named(arts.push(a), name) == if a.name@ == name {
            named(arts, name).push(a)
        } else {
            named(arts, name)
        },
{
    reveal(Seq::filter);
    assert(arts.push(a).drop_last() =~= arts);
}

proof fn lemma_named_none(arts: Seq<Article>, name: Seq<char>)
    requires
        forall|k: int| 0 <= k < arts.len() ==> (#[trigger] arts[k]).name@ != name,
    ensures
        named(arts, name) == Seq::<Article>::empty(),
    decreases arts.len(),
{
    reveal(Seq::filter);
    if arts.len() > 0 {
        lemma_named_none(arts.drop_last(), name);
        assert(arts.last() == arts[arts.len() - 1]);
    }
}

/// Gathers articles by name, in the order in which each name first occurs.
pub fn group_by_name(articles: Vec<Article>) -> (r: Vec<(String, Vec<Article>)>)
    ensures
        is_grouping(articles@, r@),
{
    let ghost arts = articles@;
    let mut groups: Vec<(String, Vec<Article>)> = Vec::new();
    for a in it: articles.into_iter()
        invariant
            it.seq() == arts,
            is_grouping(arts.subrange(0, it.index() as int), groups@),
    {
        let ghost k = it.index();
        let ghost prefix = arts.subrange(0, k as int);
        let ghost next = arts.subrange(0, k + 1);
        proof {
            assert(next =~= prefix.push(a));
            assert forall|n: Seq<char>| #[trigger] named(next, n) == if a.name@ == n {
                named(prefix, n).push(a)
            } else {
                named(prefix, n)
            } by {
                lemma_named_push(prefix, a, n);
            }
        }
        let mut idx: usize = 0;
        while idx < groups.len()
            invariant
                idx <= groups@.len(),
                forall|j: int| 0 <= j < idx ==> (#[trigger] groups@[j]).0@ != a.name@,
            ensures
                idx <= groups@.len(),
                forall|j: int| 0 <= j < idx ==> (#[trigger] groups@[j]).0@ != a.name@,
                idx < groups@.len() ==> groups@[idx as int].0@ == a.name@,
            decreases groups@.len() - idx,
        {
            if groups[idx].0 == a.name {
                break;
            }
            idx = idx + 1;
        }
        let ghost old_groups = groups@;
        if idx < groups.len() {
            let (key, mut list) = groups.remove(idx);
            list.push(a);
            groups.insert(idx, (key, list));
            proof {
                assert(groups@ =~= old_groups.update(idx as int, groups@[idx as int]));
                assert(groups@[idx as int].1@ == old_groups[idx as int].1@.push(a));
                assert forall|i: int| 0 <= i < groups@.len() && i != idx implies #[trigger] groups@[i] == old_groups[i] by {
                }
                assert(groups@[idx as int].0 == old_groups[idx as int].0);
                assert forall|k2: int| 0 <= k2 < next.len() implies exists|i: int|
                    0 <= i < groups@.len() && (#[trigger] groups@[i]).0@ == (#[trigger] next[k2]).name@ by {
                    if k2 < prefix.len() {
                        assert(next[k2] == prefix[k2]);
                        let i0 = choose|i: int| 0 <= i < old_groups.len() && (#[trigger] old_groups[i]).0@ == (
                            #[trigger] prefix[k2]).name@;
                        assert(groups@[i0].0@ == old_groups[i0].0@);
                    } else {
                        assert(next[k2] == a);
                        assert(groups@[idx as int].0@ == next[k2].name@);
                    }
                }
            }
        } else {
            let key = a.name.clone();
            groups.push((key, vec![a]));
            proof {
                assert forall|i: int| 0 <= i < old_groups.len() implies #[trigger] groups@[i] == old_groups[i] by {
                }
                assert forall|k2: int| 0 <= k2 < prefix.len() implies (#[trigger] prefix[k2]).name@ != a.name@ by {
                    let i0 = choose|i: int| 0 <= i < old_groups.len() && (#[trigger] old_groups[i]).0@ == (
                        #[trigger] prefix[k2]).name@;
                    assert(old_groups[i0].0@ != a.name@);
                }
                lemma_named_none(prefix, a.name@);
                assert(groups@.last().1@ =~= seq![a]);
                assert forall|k2: int| 0 <= k2 < next.len() implies exists|i: int|
                    0 <= i < groups@.len() && (#[trigger] groups@[i]).0@ == (#[trigger] next[k2]).name@ by {
                    if k2 < prefix.len() {
                        assert(next[k2] == prefix[k2]);
                        let i0 = choose|i: int| 0 <= i < old_groups.len() && (#[trigger] old_groups[i]).0@ == (
                            #[trigger] prefix[k2]).name@;
                        assert(groups@[i0].0@ == old_groups[i0].0@);
                    } else {
                        assert(groups@[old_groups.len() as int].0@ == next[k2].name@);
                    }
                }
            }
        }
    }
    assert(arts.subrange(0, arts.len() as int) =~= arts);
    groups
}

} // verus!

verus! {

/// The groups of more than one article, in order.
pub open spec fn shared_names(groups: Seq<(String, Vec<Article>)>) -> Seq<(String, Vec<Article>)>
    decreases groups.len(),
{
    if groups.len() == 0 {
        Seq::empty()
    } else if groups.last().1@.len() > 1 {
        shared_names(groups.drop_last()).push(groups.last())
    } else {
        shared_names(groups.drop_last())
    }
}

/// The groups of exactly one article, in order.
pub open spec fn own_names(groups: Seq<(String, Vec<Article>)>) -> Seq<(String, Vec<Article>)>
    decreases groups.len(),
{
    if groups.len() == 0 {
        Seq::empty()
    } else if groups.last().1@.len() == 1 {
        own_names(groups.drop_last()).push(groups.last())
    } else {
        own_names(groups.drop_last())
    }
}

/// `r` is the search index of `groups`: first an entry that lists the
/// articles of each shared name, then an entry for each article whose name
/// is its own.
pub open spec fn is_index_of(groups: Seq<(String, Vec<Article>)>, r: Seq<SearchIndex>) -> bool {
    let shared = shared_names(groups);
    let own = own_names(groups);
    &&& r.len() == shared.len() + own.len()
    &&& forall|i: int|
        0 <= i < shared.len() ==> match #[trigger] r[i] {
            SearchIndex::Disambiguation(x) => indexes_articles(x, shared[i].1@),
            _ => false,
        }
    &&& forall|i: int|
        0 <= i < own.len() ==> match #[trigger] r[shared.len() + i] {
            SearchIndex::Article(x) => indexes_article(x, own[i].1@[0]),
            _ => false,
        }
}

/// The search index of articles gathered by name.
pub fn search_indexes_of_groups(groups: Vec<(String, Vec<Article>)>) -> (r: Vec<SearchIndex>)
    ensures
        is_index_of(groups@, r@),
{
    let ghost gs = groups@;
    let mut shared: Vec<SearchIndex> = Vec::new();
    let mut own: Vec<SearchIndex> = Vec::new();
    for g in it: groups.into_iter()
        invariant
            it.seq() == gs,
            shared@.len() == shared_names(gs.subrange(0, it.index() as int)).len(),
            own@.len() == own_names(gs.subrange(0, it.index() as int)).len(),
            forall|i: int|
                0 <= i < shared@.len() ==> match #[trigger] shared@[i] {
                    SearchIndex::Disambiguation(x) => indexes_articles(
                        x,
                        shared_names(gs.subrange(0, it.index() as int))[i].1@,
                    ),
                    _ => false,
                },
            forall|i: int|
                0 <= i < own@.len() ==> match #[trigger] own@[i] {
                    SearchIndex::Article(x) => indexes_article(x, own_names(gs.subrange(0, it.index() as int))[i].1@[0]),
                    _ => false,
                },
    {
        let ghost k = it.index();
        let ghost prefix = gs.subrange(0, k as int);
        proof {
            assert(gs.subrange(0, k + 1).drop_last() =~= prefix);
            assert(gs.subrange(0, k + 1).last() == g);
        }
        let (_name, mut articles) = g;
        let ghost arts = articles@;
        if articles.len() > 1 {
            shared.push(SearchIndex::Disambiguation(DisambiguationSearchIndex::from_articles(articles)));
        } else if articles.len() == 1 {
            let first = articles.remove(0);
            own.push(SearchIndex::Article(ArticleSearchIndex::from_article(first)));
        }
    }
    assert(gs.subrange(0, gs.len() as int) =~= gs);
    let ghost s_view = shared@;
    let ghost o_view = own@;
    shared.append(&mut own);
    assert(shared@ =~= s_view + o_view);
    assert forall|i: int| 0 <= i < o_view.len() implies shared@[s_view.len() + i] == o_view[i] by {
    }
    shared
}

/// The articles of one language of the site, by section.
pub struct LanguageSite {
    pub language: String,
    pub sections: Vec<Section>,
}

pub open spec fn article_total(sections: Seq<Section>) -> nat {
    all_articles(sections).len()
}

impl LanguageSite {
    /// The search index of the site: the articles of all sections gathered
    /// by name.
    pub fn collect_search_indexes(self) -> (r: Vec<SearchIndex>)
        ensures
            exists|groups: Seq<(String, Vec<Article>)>|
                is_grouping(all_articles(self.sections@), groups) && #[trigger] is_index_of(groups, r@),
    {
        let articles = flatten_articles(self.sections);
        let groups = group_by_name(articles);
        let ghost gs = groups@;
        let r = search_indexes_of_groups(groups);
        assert(is_grouping(all_articles(self.sections@), gs) && is_index_of(gs, r@));
        r
    }

    /// The articles of all sections that share their name with another.
    pub fn collect_disambiguation(sections: Vec<Section>) -> (r: Vec<Disambiguation>)
        ensures
            exists|groups: Seq<(String, Vec<Article>)>|
                is_grouping(all_articles(sections@), groups) && r@.len() == #[trigger] shared_names(groups).len()
                    && forall|i: int|
                    0 <= i < r@.len() ==> (#[trigger] r@[i]).name@ == shared_names(groups)[i].0@
                        && r@[i].articles@ == shared_names(groups)[i].1@,
    {
        let articles = flatten_articles(sections);
        let groups = group_by_name(articles);
        let ghost gs = groups@;
        let mut out: Vec<Disambiguation> = Vec::new();
        for g in it: groups.into_iter()
            invariant
                it.seq() == gs,
                out@.len() == shared_names(gs.subrange(0, it.index() as int)).len(),
                forall|i: int|
                    0 <= i < out@.len() ==> (#[trigger] out@[i]).name@ == shared_names(
                        gs.subrange(0, it.index() as int),
                    )[i].0@ && out@[i].articles@ == shared_names(gs.subrange(0, it.index() as int))[i].1@,
        {
            let ghost k = it.index();
            let ghost prefix = gs.subrange(0, k as int);
            proof {
                assert(gs.subrange(0, k + 1).drop_last() =~= prefix);
                assert(gs.subrange(0, k + 1).last() == g);
            }
            let (name, articles) = g;
            if articles.len() > 1 {
                out.push(Disambiguation { name, articles });
            }
        }
        assert(gs.subrange(0, gs.len() as int) =~= gs);
        out
    }

    /// How many articles the site has.
    pub fn article_count(&self) -> (r: usize)
        requires
            article_total(self.sections@) <= usize::MAX,
        ensures
            r == article_total(self.sections@),
    {
        let mut total: usize = 0;
        let mut i: usize = 0;
        while i < self.sections.len()
            invariant
                i <= self.sections@.len(),
                article_total(self.sections@) <= usize::MAX,
                total == article_total(self.sections@.subrange(0, i as int)),
            decreases self.sections@.len() - i,
        {
            proof {
                assert(self.sections@.subrange(0, i + 1).drop_last() =~= self.sections@.subrange(0, i as int));
                lemma_article_total_grows(self.sections@, i + 1);
            }
            total = total + self.sections[i].articles.len();
            i = i + 1;
        }
        assert(self.sections@.subrange(0, i as int) =~= self.sections@);
        total
    }
}

proof fn lemma_article_total_grows(sections: Seq<Section>, i: int)
    requires
        0 <= i <= sections.len(),
    ensures
        article_total(sections.subrange(0, i)) <= article_total(sections),
    decreases sections.len() - i,
{
    if i < sections.len() {
        lemma_article_total_grows(sections, i + 1);
        assert(sections.subrange(0, i + 1).drop_last() =~= sections.subrange(0, i));
    } else {
        assert(sections.subrange(0, i) =~= sections);
    }
}

} // verus!
