//! The jikepan plugin: a JSON search API whose items list links by drive
//! service.
use vstd::prelude::*;
use crate::model::{Link, LinkView, SearchResult, SearchResultView, links_view, results_view};
use crate::plugin::{DEFAULT_CHANNEL_SCORE, DEFAULT_PRIORITY};
use crate::text::{concat2, int_text, spec_to_lowercase, str_eq, to_lowercase, u64_text};

verus! {

broadcast use vstd::string::group_string_axioms;

/// The jikepan search plugin.
pub struct JikepanPlugin;

/// One link of an item: the drive service's name, the link and its password.
pub struct JikepanLink {
    pub service: String,
    pub link: String,
    pub pwd: String,
}

/// One item of the answer: a name and its links.
pub struct JikepanItem {
    pub name: String,
    pub links: Vec<JikepanLink>,
}

/// Mathematical view of a [`JikepanLink`].
pub struct JikepanLinkView {
    pub service: Seq<char>,
    pub link: Seq<char>,
    pub pwd: Seq<char>,
}

/// Mathematical view of a [`JikepanItem`].
pub struct JikepanItemView {
    pub name: Seq<char>,
    pub links: Seq<JikepanLinkView>,
}

impl View for JikepanLink {
    type V = JikepanLinkView;

    open spec fn view(&self) -> JikepanLinkView {
        JikepanLinkView { service: self.service@, link: self.link@, pwd: self.pwd@ }
    }
}

impl View for JikepanItem {
    type V = JikepanItemView;

    open spec fn view(&self) -> JikepanItemView {
        JikepanItemView { name: self.name@, links: self.links@.map_values(|l: JikepanLink| l@) }
    }
}

/// The drive kind of a service name already in lower case; `unknown`
/// gives the empty string (the link is dropped) and names not listed give
/// `others`.
pub open spec fn service_kind(lower: Seq<char>) -> Seq<char> {
    if lower == "baidu"@ {
        "baidu"@
    } else if lower == "aliyun"@ {
        "aliyun"@
    } else if lower == "xunlei"@ {
        "xunlei"@
    } else if lower == "quark"@ {
        "quark"@
    } else if lower == "189cloud"@ {
        "tianyi"@
    } else if lower == "115"@ {
        "115"@
    } else if lower == "123"@ {
        "123"@
    } else if lower == "pikpak"@ {
        "pikpak"@
    } else if lower == "caiyun"@ {
        "mobile"@
    } else if lower == "ed2k"@ {
        "ed2k"@
    } else if lower == "magnet"@ {
        "magnet"@
    } else if lower == "uc"@ {
        "uc"@
    } else if lower == "unknown"@ {
        Seq::empty()
    } else {
        "others"@
    }
}

/// Drive kind of a service name, compared in lower case (see [`service_kind`]).
pub fn convert_service(service: &str) -> (r: String)
    ensures
        r@ == service_kind(spec_to_lowercase(service@)),
{
    let l = to_lowercase(service);
    let s = l.as_str();
    if str_eq(s, "baidu") {
        "baidu".to_owned()
    } else if str_eq(s, "aliyun") {
        "aliyun".to_owned()
    } else if str_eq(s, "xunlei") {
        "xunlei".to_owned()
    } else if str_eq(s, "quark") {
        "quark".to_owned()
    } else if str_eq(s, "189cloud") {
        "tianyi".to_owned()
    } else if str_eq(s, "115") {
        "115".to_owned()
    } else if str_eq(s, "123") {
        "123".to_owned()
    } else if str_eq(s, "pikpak") {
        "pikpak".to_owned()
    } else if str_eq(s, "caiyun") {
        "mobile".to_owned()
    } else if str_eq(s, "ed2k") {
        "ed2k".to_owned()
    } else if str_eq(s, "magnet") {
        "magnet".to_owned()
    } else if str_eq(s, "uc") {
        "uc".to_owned()
    } else if str_eq(s, "unknown") {
        proof {
            reveal_strlit("");
        }
        String::new()
    } else {
        "others".to_owned()
    }
}

/// The links of an item whose service has a drive kind, in order.
pub open spec fn item_links(ls: Seq<JikepanLinkView>) -> Seq<LinkView>
    decreases ls.len(),
{
    if ls.len() == 0 {
        Seq::empty()
    } else {
        let prev = item_links(ls.drop_last());
        let kind = service_kind(spec_to_lowercase(ls.last().service));
        if kind.len() == 0 {
            prev
        } else {
            prev.push(
                LinkView {
                    disk_type: kind,
                    url: ls.last().link,
                    password: ls.last().pwd,
                    datetime: None,
                    work_title: None,
                },
            )
        }
    }
}

/// The results of the answer's items at time `now`: each item with at
/// least one kept link gives a result numbered by its place in the answer.
pub open spec fn jikepan_results(items: Seq<JikepanItemView>, now: i64) -> Seq<SearchResultView>
    decreases items.len(),
{
    if items.len() == 0 {
        Seq::empty()
    } else {
        let prev = jikepan_results(items.drop_last(), now);
        let it = items.last();
        let ls = item_links(it.links);
        let id = "jikepan_"@ + int_text(items.len() - 1);
        if ls.len() == 0 {
            prev
        } else {
            prev.push(
                SearchResultView {
                    message_id: id,
                    unique_id: id,
                    channel: Seq::empty(),
                    channel_score: DEFAULT_CHANNEL_SCORE,
                    datetime: now,
                    title: it.name,
                    content: Seq::empty(),
                    links: ls,
                    tags: Seq::empty(),
                    images: Seq::empty(),
                },
            )
        }
    }
}

impl JikepanPlugin {
    /// The plugin's name.
    pub fn name(&self) -> (r: &'static str)
        ensures
            r@ == "jikepan"@,
    {
        "jikepan"
    }

    /// The plugin's priority.
    pub fn priority(&self) -> (r: i32)
        ensures
            r == DEFAULT_PRIORITY,
    {
        DEFAULT_PRIORITY
    }

    /// Reliability score of the plugin's results.
    pub fn channel_score(&self) -> (r: i32)
        ensures
            r == DEFAULT_CHANNEL_SCORE,
    {
        DEFAULT_CHANNEL_SCORE
    }

    /// The search results of the items answered by the site, at time `now`
    /// (see [`jikepan_results`]).
    pub fn results_from(&self, items: &Vec<JikepanItem>, now: i64) -> (r: Vec<SearchResult>)
        ensures
            results_view(r@) == jikepan_results(items@.map_values(|i: JikepanItem| i@), now),
    {
        let ghost iv = items@.map_values(|i: JikepanItem| i@);
        let mut out: Vec<SearchResult> = Vec::new();
        let mut i: usize = 0;
        while i < items.len()
            invariant
                i <= items@.len(),
                iv == items@.map_values(|i: JikepanItem| i@),
                results_view(out@) == jikepan_results(iv.take(i as int), now),
            decreases items@.len() - i,
        {
            proof {
                assert(iv.take(i + 1).drop_last() =~= iv.take(i as int));
                assert(iv.take(i + 1).last() == items@[i as int]@);
            }
            let it = &items[i];
            let ghost lv = it.links@.map_values(|l: JikepanLink| l@);
            let mut links: Vec<Link> = Vec::new();
            let mut k: usize = 0;
            while k < it.links.len()
                invariant
                    k <= it.links@.len(),
                    lv == it.links@.map_values(|l: JikepanLink| l@),
                    links_view(links@) == item_links(lv.take(k as int)),
                decreases it.links@.len() - k,
            {
                proof {
                    assert(lv.take(k + 1).drop_last() =~= lv.take(k as int));
                    assert(lv.take(k + 1).last() == it.links@[k as int]@);
                }
                let l = &it.links[k];
                let kind = convert_service(l.service.as_str());
                if !kind.as_str().is_empty() {
                    let ghost before = links_view(links@);
                    let nl = Link {
                        disk_type: kind,
                        url: l.link.clone(),
                        password: l.pwd.clone(),
                        datetime: None,
                        work_title: None,
                    };
                    links.push(nl);
                    assert(links_view(links@) =~= before.push(nl@));
                }
                k = k + 1;
            }
            assert(lv.take(lv.len() as int) =~= lv);
            if links.len() > 0 {
                let num = u64_text(i as u64);
                let id = concat2("jikepan_", num.as_str());
                let ghost before = results_view(out@);
                assert(id@ == "jikepan_"@ + int_text(iv.take(i + 1).len() - 1));
                let r = SearchResult {
                    message_id: id.clone(),
                    unique_id: id,
                    channel: String::new(),
                    channel_score: DEFAULT_CHANNEL_SCORE,
                    datetime: now,
                    title: it.name.clone(),
                    content: String::new(),
                    links,
                    tags: Vec::new(),
                    images: Vec::new(),
                };
                proof {
                    reveal_strlit("");
                }
                out.push(r);
                assert(results_view(out@) =~= before.push(r@));
                assert(links_view(r.links@) == item_links(lv));
                assert(r@.tags =~= Seq::<Seq<char>>::empty());
                assert(r@.images =~= Seq::<Seq<char>>::empty());
                assert(results_view(out@) == jikepan_results(iv.take(i + 1), now));
            } else {
                assert(results_view(out@) == jikepan_results(iv.take(i + 1), now));
            }
            i = i + 1;
        }
        assert(iv.take(iv.len() as int) =~= iv);
        out
    }
}

} // verus!
