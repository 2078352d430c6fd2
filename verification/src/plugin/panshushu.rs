//! The panshushu plugin: a JSON search API answering with a status code and
//! a list of share links.
use vstd::prelude::*;
use crate::model::{Link, LinkView, SearchResult, SearchResultView, links_view, results_view};
use crate::plugin::DEFAULT_PRIORITY;
use crate::service::search::{link_type, link_type_of};
use crate::text::{concat2, form_urlencode, i64_text, int_text, spec_form_urlencode};

verus! {

broadcast use vstd::string::group_string_axioms;

/// The panshushu search plugin.
pub struct PanshushuPlugin;

/// One item of the answer.
pub struct PanshushuItem {
    pub id: i64,
    pub pwd: String,
    pub title: String,
    pub url: String,
}

/// Mathematical view of a [`PanshushuItem`].
pub struct PanshushuItemView {
    pub id: i64,
    pub pwd: Seq<char>,
    pub title: Seq<char>,
    pub url: Seq<char>,
}

impl View for PanshushuItem {
    type V = PanshushuItemView;

    open spec fn view(&self) -> PanshushuItemView {
        PanshushuItemView { id: self.id, pwd: self.pwd@, title: self.title@, url: self.url@ }
    }
}

/// Reliability score of the panshushu results.
pub const PANSHUSHU_CHANNEL_SCORE: i32 = 40;

/// The address of the search for `kw`.
pub open spec fn panshushu_url(kw: Seq<char>) -> Seq<char> {
    "https://www.panshushu.com/api/search?keyword="@ + spec_form_urlencode(kw)
        + "&page=1&page_size=30&s=a1"@
}

/// The result of the item at place `i` of the answer: items are dated one
/// second apart, going back from `now`.
pub open spec fn panshushu_result(it: PanshushuItemView, i: int, now: i64) -> SearchResultView {
    let id = "panshushu_"@ + int_text(it.id as int);
    let at = (now - 1000 * i) as i64;
    SearchResultView {
        message_id: id,
        unique_id: id,
        channel: "panshushu"@,
        channel_score: PANSHUSHU_CHANNEL_SCORE,
        datetime: at,
        title: it.title,
        content: Seq::empty(),
        links: seq![
            LinkView {
                disk_type: link_type_of(it.url),
                url: it.url,
                password: it.pwd,
                datetime: Some(at),
                work_title: Some(it.title),
            },
        ],
        tags: Seq::empty(),
        images: Seq::empty(),
    }
}

/// The results of an answer with status `code`: none unless the status is
/// 200 and there are items; then one per item, in order.
pub open spec fn panshushu_results(code: i32, items: Option<Seq<PanshushuItemView>>, now: i64) -> Seq<
    SearchResultView,
> {
    match items {
        Some(v) if code == 200 => Seq::new(v.len(), |i: int| panshushu_result(v[i], i, now)),
        _ => Seq::empty(),
    }
}

impl PanshushuPlugin {
    /// The plugin's name.
    pub fn name(&self) -> (r: &'static str)
        ensures
            r@ == "panshushu"@,
    {
        "panshushu"
    }

    /// The plugin's priority.
    pub fn priority(&self) -> (r: i32)
        ensures
            r == DEFAULT_PRIORITY,
    {
        DEFAULT_PRIORITY
    }

    /// Reliability score of the plugin's results.
    pub fn channel_score(&self) -> (r: i32)
        ensures
            r == PANSHUSHU_CHANNEL_SCORE,
    {
        PANSHUSHU_CHANNEL_SCORE
    }

    /// The address to fetch for a keyword.
    pub fn search_url(&self, keyword: &str) -> (r: String)
        ensures
            r@ == panshushu_url(keyword@),
    {
        let mut r = String::from_str("https://www.panshushu.com/api/search?keyword=");
        let enc = form_urlencode(keyword);
        r.append(enc.as_str());
        r.append("&page=1&page_size=30&s=a1");
        r
    }

    /// The search results of an answer (see [`panshushu_results`]).
    pub fn results_from(&self, code: i32, items: Option<&Vec<PanshushuItem>>, now: i64) -> (r: Vec<
        SearchResult,
    >)
        requires
            match items {
                Some(v) => now - 1000 * v@.len() >= i64::MIN,
                None => true,
            },
        ensures
            results_view(r@) == panshushu_results(
                code,
                match items {
                    Some(v) => Some(v@.map_values(|i: PanshushuItem| i@)),
                    None => None,
                },
                now,
            ),
    {
        let mut out: Vec<SearchResult> = Vec::new();
        if code != 200 {
            assert(results_view(out@) =~= Seq::<SearchResultView>::empty());
            return out;
        }
        let v = match items {
            Some(v) => v,
            None => {
                assert(results_view(out@) =~= Seq::<SearchResultView>::empty());
                return out;
            },
        };
        let ghost iv = v@.map_values(|i: PanshushuItem| i@);
        let mut i: usize = 0;
        while i < v.len()
            invariant
                i <= v@.len(),
                iv == v@.map_values(|i: PanshushuItem| i@),
                now - 1000 * v@.len() >= i64::MIN,
                out@.len() == i,
                forall|j: int|
                    0 <= j < i ==> (#[trigger] out@[j])@ == panshushu_result(iv[j], j, now),
            decreases v@.len() - i,
        {
            let it = &v[i];
            let at: i64 = ((now as i128) - 1000 * (i as i128)) as i64;
            let id = concat2("panshushu_", i64_text(it.id).as_str());
            let link = Link {
                disk_type: link_type(it.url.as_str()),
                url: it.url.clone(),
                password: it.pwd.clone(),
                datetime: Some(at),
                work_title: Some(it.title.clone()),
            };
            let mut links: Vec<Link> = Vec::new();
            links.push(link);
            let r = SearchResult {
                message_id: id.clone(),
                unique_id: id,
                channel: "panshushu".to_owned(),
                channel_score: PANSHUSHU_CHANNEL_SCORE,
                datetime: at,
                title: it.title.clone(),
                content: String::new(),
                links,
                tags: Vec::new(),
                images: Vec::new(),
            };
            proof {
                reveal_strlit("");
                assert(r@.links =~= seq![link@]);
                assert(r@.tags =~= Seq::<Seq<char>>::empty());
                assert(r@.images =~= Seq::<Seq<char>>::empty());
                assert(r@ == panshushu_result(iv[i as int], i as int, now));
            }
            out.push(r);
            i = i + 1;
        }
        assert(results_view(out@) =~= panshushu_results(code, Some(iv), now));
        out
    }
}

} // verus!
