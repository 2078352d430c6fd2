//! The alupan plugin: a blog whose search page lists articles; the share
//! links are read from each article's page.
use vstd::prelude::*;
use crate::html::{FieldPath, NodeRead, NodeReadView, field_view, fields_view, page_rows, read_page, rows_view};
use crate::model::{Link, LinkView, SearchResult, SearchResultView, links_view, opt_view, results_view};
use crate::pattern::{regex_capture1, regex_find_all, spec_regex_capture1, spec_regex_find_all};
use crate::plugin::{DEFAULT_CHANNEL_SCORE, filter_results_by_keyword, keyword_filtered};
use crate::text::{concat2, form_urlencode, spec_form_urlencode, spec_trim, str_eq, str_trim};

verus! {

broadcast use vstd::string::group_string_axioms;

/// The alupan search plugin.
pub struct AlupanPlugin;

/// Priority of the alupan plugin.
pub const ALUPAN_PRIORITY: i32 = 2;

/// An article listed by the search page.
pub struct AlupanArticle {
    pub title: String,
    pub detail_url: String,
    pub article_id: String,
    pub summary: String,
}

/// Mathematical view of an [`AlupanArticle`].
pub struct AlupanArticleView {
    pub title: Seq<char>,
    pub detail_url: Seq<char>,
    pub article_id: Seq<char>,
    pub summary: Seq<char>,
}

impl View for AlupanArticle {
    type V = AlupanArticleView;

    open spec fn view(&self) -> AlupanArticleView {
        AlupanArticleView {
            title: self.title@,
            detail_url: self.detail_url@,
            article_id: self.article_id@,
            summary: self.summary@,
        }
    }
}

/// The address of the search page for `kw`.
pub open spec fn alupan_url(kw: Seq<char>) -> Seq<char> {
    "https://www.aliupan.com/?s="@ + spec_form_urlencode(kw)
}

/// The fields read of each article of the search page: the title link
/// (with its `href`) and the note.
pub open spec fn article_fields() -> Seq<(Seq<Seq<char>>, Seq<char>)> {
    seq![(seq!["header h2 a"@], "href"@), (seq!["p.note"@], "href"@)]
}

/// Pattern of the article number in an article's address.
pub open spec fn article_id_pattern() -> Seq<char> {
    "\\?p=(\\d+)"@
}

/// The article of a row read from the search page: `None` without a title
/// link, without an address, or without an article number in it.
pub open spec fn article_of(row: Seq<Option<NodeReadView>>) -> Option<AlupanArticleView> {
    match row[0] {
        Some((text, Some(href))) => {
            let id = match spec_regex_capture1(article_id_pattern(), href) {
                Some(v) => v,
                None => Seq::empty(),
            };
            if id.len() == 0 {
                None
            } else {
                Some(
                    AlupanArticleView {
                        title: spec_trim(text),
                        detail_url: href,
                        article_id: id,
                        summary: match row[1] {
                            Some((t, _)) => spec_trim(t),
                            None => Seq::empty(),
                        },
                    },
                )
            }
        },
        _ => None,
    }
}

/// The articles of the rows, in order.
pub open spec fn articles_of(rows: Seq<Seq<Option<NodeReadView>>>) -> Seq<AlupanArticleView>
    decreases rows.len(),
{
    if rows.len() == 0 {
        Seq::empty()
    } else {
        match article_of(rows.last()) {
            Some(a) => articles_of(rows.drop_last()).push(a),
            None => articles_of(rows.drop_last()),
        }
    }
}

/// The articles of a search page (`article.excerpt` elements).
pub open spec fn page_articles(body: Seq<char>) -> Seq<AlupanArticleView> {
    articles_of(page_rows(body, "article.excerpt"@, article_fields()))
}

/// The share-link patterns of article pages, with their drive kinds, tried
/// in order.
pub open spec fn link_patterns() -> Seq<(Seq<char>, Seq<char>)> {
    seq![
        ("https?://pan\\.quark\\.cn/s/[0-9A-Za-z]+"@, "quark"@),
        ("https?://www\\.aliyundrive\\.com/s/[0-9A-Za-z]+"@, "aliyun"@),
        ("https?://www\\.aliyundrive\\.com/drive/folder/[0-9A-Za-z]+"@, "aliyun"@),
    ]
}

/// The first match of a pattern in a text.
pub open spec fn first_match(pattern: Seq<char>, text: Seq<char>) -> Option<Seq<char>> {
    match spec_regex_find_all(pattern, text) {
        Some(ms) if ms.len() > 0 => Some(ms[0]),
        _ => None,
    }
}

/// Drive kind and share link of an address: those of the first pattern
/// (of `pats`) that matches, the link being the matched text; two empty
/// texts when none matches.
pub open spec fn classify_with(raw: Seq<char>, pats: Seq<(Seq<char>, Seq<char>)>) -> (Seq<char>, Seq<char>)
    decreases pats.len(),
{
    if pats.len() == 0 {
        (Seq::empty(), Seq::empty())
    } else {
        match first_match(pats[0].0, raw) {
            Some(m) => (pats[0].1, m),
            None => classify_with(raw, pats.drop_first()),
        }
    }
}

/// Drive kind and share link of an address (see [`classify_with`]).
pub open spec fn classify_of(raw: Seq<char>) -> (Seq<char>, Seq<char>) {
    classify_with(raw, link_patterns())
}

/// Pattern of a password in a link's text.
pub open spec fn link_pwd_pattern() -> Seq<char> {
    "(?:提取码|密码)[:：]?\\s*([0-9A-Za-z]+)"@
}

/// The password written in a link's text, trimmed, or empty.
pub open spec fn link_password(text: Seq<char>) -> Seq<char> {
    match spec_regex_capture1(link_pwd_pattern(), text) {
        Some(p) => spec_trim(p),
        None => Seq::empty(),
    }
}

/// The links of the rows read from an article page, appended in order: a
/// row counts when its `href`, trimmed, is not empty and matches a share
/// pattern whose link was not taken before.
pub open spec fn detail_links_of(rows: Seq<Seq<Option<NodeReadView>>>) -> Seq<LinkView>
    decreases rows.len(),
{
    if rows.len() == 0 {
        Seq::empty()
    } else {
        let prev = detail_links_of(rows.drop_last());
        match rows.last()[0] {
            Some((text, Some(href))) => {
                let h = spec_trim(href);
                let c = classify_of(h);
                if h.len() == 0 || c.0.len() == 0 || exists|k: int|
                    0 <= k < prev.len() && (#[trigger] prev[k]).url == c.1 {
                    prev
                } else {
                    prev.push(
                        LinkView {
                            disk_type: c.0,
                            url: c.1,
                            password: link_password(text),
                            datetime: None,
                            work_title: None,
                        },
                    )
                }
            },
            _ => prev,
        }
    }
}

/// The share links of an article page (links inside `.article-content`).
pub open spec fn page_links(body: Seq<char>) -> Seq<LinkView> {
    detail_links_of(page_rows(body, ".article-content a[href]"@, seq![(Seq::empty(), "href"@)]))
}

/// The result of an article with its links at time `now`.
pub open spec fn article_result(a: AlupanArticleView, links: Seq<LinkView>, now: i64) -> SearchResultView {
    let id = "alupan-"@ + a.article_id;
    SearchResultView {
        message_id: id,
        unique_id: id,
        channel: Seq::empty(),
        channel_score: DEFAULT_CHANNEL_SCORE,
        datetime: now,
        title: a.title,
        content: a.summary,
        links: links,
        tags: Seq::empty(),
        images: Seq::empty(),
    }
}

/// The results of the articles whose pages gave links, in order.
pub open spec fn articles_results(arts: Seq<AlupanArticleView>, links: Seq<Seq<LinkView>>, now: i64) -> Seq<
    SearchResultView,
>
    decreases arts.len(),
{
    if arts.len() == 0 {
        Seq::empty()
    } else {
        let prev = articles_results(arts.drop_last(), links.drop_last(), now);
        if links.last().len() == 0 {
            prev
        } else {
            prev.push(article_result(arts.last(), links.last(), now))
        }
    }
}

fn first_match_exec(pattern: &str, text: &str) -> (r: Option<String>)
    ensures
        opt_view(r) == first_match(pattern@, text@),
{
    match regex_find_all(pattern, text) {
        Some(mut ms) => {
            if ms.len() > 0 {
                Some(ms.swap_remove(0))
            } else {
                None
            }
        },
        None => None,
    }
}

/// Drive kind and share link of an address (see [`classify_of`]).
pub fn classify_link(raw: &str) -> (r: (String, String))
    ensures
        (r.0@, r.1@) == classify_of(raw@),
{
    let pats: Vec<(&str, &str)> = vec![
        ("https?://pan\\.quark\\.cn/s/[0-9A-Za-z]+", "quark"),
        ("https?://www\\.aliyundrive\\.com/s/[0-9A-Za-z]+", "aliyun"),
        ("https?://www\\.aliyundrive\\.com/drive/folder/[0-9A-Za-z]+", "aliyun"),
    ];
    let ghost pv = pats@.map_values(|t: (&str, &str)| (t.0@, t.1@));
    assert(pv =~= link_patterns());
    assert(pv.skip(0) =~= pv);
    let mut k: usize = 0;
    while k < pats.len()
        invariant
            k <= pats@.len(),
            pv == pats@.map_values(|t: (&str, &str)| (t.0@, t.1@)),
            pv == link_patterns(),
            classify_with(raw@, pv) == classify_with(raw@, pv.skip(k as int)),
        decreases pats@.len() - k,
    {
        assert(pv.skip(k as int)[0] == pv[k as int]);
        assert(pv[k as int] == (pats@[k as int].0@, pats@[k as int].1@));
        assert(pv.skip(k as int).drop_first() =~= pv.skip(k + 1));
        let fm = first_match_exec(pats[k].0, raw);
        if let Some(m) = fm {
            let kind = pats[k].1.to_owned();
            assert(first_match(pv[k as int].0, raw@) == Some(m@));
            assert(classify_with(raw@, pv.skip(k as int)) == (pv[k as int].1, m@));
            return (kind, m);
        }
        k = k + 1;
    }
    proof {
        reveal_strlit("");
    }
    assert(pv.skip(k as int) =~= Seq::<(Seq<char>, Seq<char>)>::empty());
    (String::new(), String::new())
}

/// The password written in a link's text (see [`link_password`]).
pub fn extract_password(text: &str) -> (r: String)
    ensures
        r@ == link_password(text@),
{
    match regex_capture1("(?:提取码|密码)[:：]?\\s*([0-9A-Za-z]+)", text) {
        Some(p) => str_trim(p.as_str()),
        None => String::new(),
    }
}

fn article_fields_exec() -> (r: Vec<FieldPath>)
    ensures
        fields_view(r@) == article_fields(),
{
    let r = vec![
        (vec!["header h2 a".to_owned()], "href".to_owned()),
        (vec!["p.note".to_owned()], "href".to_owned()),
    ];
    proof {
        assert(r@[0].0@.map_values(|s: String| s@) =~= seq!["header h2 a"@]);
        assert(r@[1].0@.map_values(|s: String| s@) =~= seq!["p.note"@]);
    }
    assert(fields_view(r@) =~= article_fields());
    r
}

fn seen_url(links: &Vec<Link>, url: &str) -> (b: bool)
    ensures
        b == exists|k: int| 0 <= k < links@.len() && (#[trigger] links_view(links@)[k]).url == url@,
{
    let mut k: usize = 0;
    while k < links.len()
        invariant
            k <= links@.len(),
            forall|j: int| 0 <= j < k ==> (#[trigger] links_view(links@)[j]).url != url@,
        decreases links@.len() - k,
    {
        if str_eq(links[k].url.as_str(), url) {
            assert(links_view(links@)[k as int].url == url@);
            return true;
        }
        k = k + 1;
    }
    false
}

impl AlupanPlugin {
    /// The plugin's name.
    pub fn name(&self) -> (r: &'static str)
        ensures
            r@ == "alupan"@,
    {
        "alupan"
    }

    /// The plugin's priority.
    pub fn priority(&self) -> (r: i32)
        ensures
            r == ALUPAN_PRIORITY,
    {
        ALUPAN_PRIORITY
    }

    /// Reliability score of the plugin's results.
    pub fn channel_score(&self) -> (r: i32)
        ensures
            r == DEFAULT_CHANNEL_SCORE,
    {
        DEFAULT_CHANNEL_SCORE
    }

    /// The address of the search page for a keyword.
    pub fn search_url(&self, keyword: &str) -> (r: String)
        ensures
            r@ == alupan_url(keyword@),
    {
        let mut r = String::from_str("https://www.aliupan.com/?s=");
        r.append(form_urlencode(keyword).as_str());
        r
    }

    /// The articles listed by a search page (see [`page_articles`]).
    pub fn articles_from_page(&self, body: &str) -> (r: Vec<AlupanArticle>)
        ensures
            r@.map_values(|a: AlupanArticle| a@) == page_articles(body@),
    {
        let fields = article_fields_exec();
        assert(fields_view(fields@).len() == fields@.len());
        let rows = read_page(body, "article.excerpt", &fields);
        let ghost rv = rows_view(rows@);
        let mut out: Vec<AlupanArticle> = Vec::new();
        let mut i: usize = 0;
        while i < rows.len()
            invariant
                i <= rows@.len(),
                fields@.len() == 2,
                forall|j: int| 0 <= j < rows@.len() ==> (#[trigger] rows@[j])@.len() == fields@.len(),
                rv == rows_view(rows@),
                out@.map_values(|a: AlupanArticle| a@) == articles_of(rv.take(i as int)),
            decreases rows@.len() - i,
        {
            proof {
                assert(rv.take(i + 1).drop_last() =~= rv.take(i as int));
                assert(rv[i as int].len() == 2);
            }
            let row = &rows[i];
            let ghost before = out@.map_values(|a: AlupanArticle| a@);
            match &row[0] {
                Some((text, Some(href))) => {
                    let id = match regex_capture1("\\?p=(\\d+)", href.as_str()) {
                        Some(v) => v,
                        None => String::new(),
                    };
                    if !id.as_str().is_empty() {
                        let summary = match &row[1] {
                            Some((t, _)) => str_trim(t.as_str()),
                            None => String::new(),
                        };
                        let a = AlupanArticle {
                            title: str_trim(text.as_str()),
                            detail_url: href.clone(),
                            article_id: id,
                            summary,
                        };
                        out.push(a);
                        assert(out@.map_values(|a: AlupanArticle| a@) =~= before.push(a@));
                    }
                },
                _ => {},
            }
            i = i + 1;
        }
        assert(rv.take(rv.len() as int) =~= rv);
        out
    }

    /// The share links of an article page (see [`page_links`]).
    pub fn detail_links(&self, body: &str) -> (r: Vec<Link>)
        ensures
            links_view(r@) == page_links(body@),
    {
        let fields: Vec<FieldPath> = vec![(Vec::new(), "href".to_owned())];
        assert(fields_view(fields@) =~= seq![(Seq::<Seq<char>>::empty(), "href"@)]) by {
            assert(fields@[0].0@.map_values(|s: String| s@) =~= Seq::<Seq<char>>::empty());
        }
        let rows = read_page(body, ".article-content a[href]", &fields);
        let ghost rv = rows_view(rows@);
        let mut out: Vec<Link> = Vec::new();
        let mut i: usize = 0;
        while i < rows.len()
            invariant
                i <= rows@.len(),
                fields@.len() == 1,
                forall|j: int| 0 <= j < rows@.len() ==> (#[trigger] rows@[j])@.len() == fields@.len(),
                rv == rows_view(rows@),
                links_view(out@) == detail_links_of(rv.take(i as int)),
            decreases rows@.len() - i,
        {
            proof {
                assert(rv.take(i + 1).drop_last() =~= rv.take(i as int));
                assert(rv[i as int].len() == 1);
            }
            let row = &rows[i];
            let ghost before = links_view(out@);
            match &row[0] {
                Some((text, Some(href))) => {
                    let h = str_trim(href.as_str());
                    if !h.as_str().is_empty() {
                        let (kind, url) = classify_link(h.as_str());
                        if !kind.as_str().is_empty() && !seen_url(&out, url.as_str()) {
                            let l = Link {
                                disk_type: kind,
                                url,
                                password: extract_password(text.as_str()),
                                datetime: None,
                                work_title: None,
                            };
                            out.push(l);
                            assert(links_view(out@) =~= before.push(l@));
                        }
                    }
                },
                _ => {},
            }
            i = i + 1;
        }
        assert(rv.take(rv.len() as int) =~= rv);
        out
    }

    /// The search results for `keyword` at time `now`, given the articles
    /// and the links read from each article's page (empty when the page
    /// could not be read): the articles' results (see [`articles_results`])
    /// that match the keyword.
    pub fn results_from(
        &self,
        articles: &Vec<AlupanArticle>,
        links: &Vec<Vec<Link>>,
        keyword: &str,
        now: i64,
    ) -> (r: Vec<SearchResult>)
        requires
            links@.len() == articles@.len(),
        ensures
            results_view(r@) == keyword_filtered(
                articles_results(
                    articles@.map_values(|a: AlupanArticle| a@),
                    links@.map_values(|v: Vec<Link>| links_view(v@)),
                    now,
                ),
                keyword@,
            ),
    {
        let ghost av = articles@.map_values(|a: AlupanArticle| a@);
        let ghost lv = links@.map_values(|v: Vec<Link>| links_view(v@));
        let mut out: Vec<SearchResult> = Vec::new();
        let mut i: usize = 0;
        while i < articles.len()
            invariant
                i <= articles@.len(),
                links@.len() == articles@.len(),
                av == articles@.map_values(|a: AlupanArticle| a@),
                lv == links@.map_values(|v: Vec<Link>| links_view(v@)),
                results_view(out@) == articles_results(av.take(i as int), lv.take(i as int), now),
            decreases articles@.len() - i,
        {
            proof {
                assert(av.take(i + 1).drop_last() =~= av.take(i as int));
                assert(lv.take(i + 1).drop_last() =~= lv.take(i as int));
                assert(av.take(i + 1).last() == articles@[i as int]@);
                assert(lv.take(i + 1).last() == links_view(links@[i as int]@));
            }
            if links[i].len() > 0 {
                let a = &articles[i];
                let id = concat2("alupan-", a.article_id.as_str());
                let r = SearchResult {
                    message_id: id.clone(),
                    unique_id: id,
                    channel: String::new(),
                    channel_score: DEFAULT_CHANNEL_SCORE,
                    datetime: now,
                    title: a.title.clone(),
                    content: a.summary.clone(),
                    links: crate::model::clone_links(&links[i]),
                    tags: Vec::new(),
                    images: Vec::new(),
                };
                let ghost before = results_view(out@);
                proof {
                    assert(r@.tags =~= Seq::<Seq<char>>::empty());
                    assert(r@.images =~= Seq::<Seq<char>>::empty());
                }
                out.push(r);
                assert(results_view(out@) =~= before.push(r@));
            }
            i = i + 1;
        }
        assert(av.take(av.len() as int) =~= av);
        assert(lv.take(lv.len() as int) =~= lv);
        filter_results_by_keyword(&mut out, keyword);
        out
    }
}

} // verus!
