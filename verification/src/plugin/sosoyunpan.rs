//! The sosoyunpan plugin: a JSON search API listing shared files.
use vstd::prelude::*;
use crate::clock::{parse_ymd_ms, spec_ymd_ms};
use crate::model::{Link, LinkView, SearchResult, SearchResultView, opt_view, results_view};
use crate::plugin::{DEFAULT_PRIORITY, DEFAULT_CHANNEL_SCORE, filter_results_by_keyword, keyword_filtered};
use crate::service::search::{link_type, link_type_of};
use crate::text::{concat2, spec_replace, str_replace};

verus! {

broadcast use vstd::string::group_string_axioms;

/// The sosoyunpan search plugin.
pub struct SosoyunpanPlugin;

/// One shared file of the answer; every field may be missing.
pub struct SosoyunpanItem {
    pub file_md5: Option<String>,
    pub file_title: Option<String>,
    pub file_link: Option<String>,
    pub share_date: Option<String>,
}

/// Mathematical view of a [`SosoyunpanItem`].
pub struct SosoyunpanItemView {
    pub file_md5: Option<Seq<char>>,
    pub file_title: Option<Seq<char>>,
    pub file_link: Option<Seq<char>>,
    pub share_date: Option<Seq<char>>,
}

impl View for SosoyunpanItem {
    type V = SosoyunpanItemView;

    open spec fn view(&self) -> SosoyunpanItemView {
        SosoyunpanItemView {
            file_md5: opt_view(self.file_md5),
            file_title: opt_view(self.file_title),
            file_link: opt_view(self.file_link),
            share_date: opt_view(self.share_date),
        }
    }
}

/// The text of an optional field when present and not empty.
pub open spec fn present(o: Option<Seq<char>>) -> Option<Seq<char>> {
    match o {
        Some(t) if t.len() > 0 => Some(t),
        _ => None,
    }
}

/// The result of a file: `None` without a title or a link. The title loses
/// its `<em>` highlighting; the date is the share date, or `now`; the
/// identifier is the file's MD5, or its link.
pub open spec fn sosoyunpan_result(it: SosoyunpanItemView, now: i64) -> Option<SearchResultView> {
    match (present(it.file_title), present(it.file_link)) {
        (Some(t), Some(url)) => {
            let title = spec_replace(spec_replace(t, "<em>"@, Seq::empty()), "</em>"@, Seq::empty());
            let dt = match it.share_date {
                Some(d) => match spec_ymd_ms(d) {
                    Some(ms) => ms,
                    None => now,
                },
                None => now,
            };
            let uid = match present(it.file_md5) {
                Some(m) => m,
                None => url,
            };
            let id = "sosoyunpan-"@ + uid;
            Some(
                SearchResultView {
                    message_id: id,
                    unique_id: id,
                    channel: "sosoyunpan"@,
                    channel_score: DEFAULT_CHANNEL_SCORE,
                    datetime: dt,
                    title: title,
                    content: Seq::empty(),
                    links: seq![
                        LinkView {
                            disk_type: link_type_of(url),
                            url: url,
                            password: Seq::empty(),
                            datetime: None,
                            work_title: None,
                        },
                    ],
                    tags: Seq::empty(),
                    images: Seq::empty(),
                },
            )
        },
        _ => None,
    }
}

/// The results of the files, in order.
pub open spec fn sosoyunpan_results(items: Seq<SosoyunpanItemView>, now: i64) -> Seq<SearchResultView>
    decreases items.len(),
{
    if items.len() == 0 {
        Seq::empty()
    } else {
        let prev = sosoyunpan_results(items.drop_last(), now);
        match sosoyunpan_result(items.last(), now) {
            Some(r) => prev.push(r),
            None => prev,
        }
    }
}

fn present_text(o: &Option<String>) -> (r: Option<&String>)
    ensures
        match r {
            Some(s) => present(opt_view(*o)) == Some(s@),
            None => present(opt_view(*o)) is None,
        },
{
    match o {
        Some(t) => {
            if t.as_str().is_empty() {
                None
            } else {
                Some(t)
            }
        },
        None => None,
    }
}

fn result_of(it: &SosoyunpanItem, now: i64) -> (r: Option<SearchResult>)
    ensures
        match r {
            Some(x) => sosoyunpan_result(it@, now) == Some(x@),
            None => sosoyunpan_result(it@, now) is None,
        },
{
    let t = match present_text(&it.file_title) {
        Some(t) => t,
        None => {
            return None;
        },
    };
    let url = match present_text(&it.file_link) {
        Some(u) => u,
        None => {
            return None;
        },
    };
    proof {
        reveal_strlit("<em>");
        reveal_strlit("</em>");
        reveal_strlit("");
    }
    assert(""@ =~= Seq::<char>::empty());
    let t1 = str_replace(t.as_str(), "<em>", "");
    let title = str_replace(t1.as_str(), "</em>", "");
    let dt: i64 = match &it.share_date {
        Some(d) => match parse_ymd_ms(d.as_str()) {
            Some(ms) => ms,
            None => now,
        },
        None => now,
    };
    let uid = match present_text(&it.file_md5) {
        Some(m) => m.clone(),
        None => url.clone(),
    };
    let id = concat2("sosoyunpan-", uid.as_str());
    let link = Link {
        disk_type: link_type(url.as_str()),
        url: url.clone(),
        password: String::new(),
        datetime: None,
        work_title: None,
    };
    let mut links: Vec<Link> = Vec::new();
    links.push(link);
    let r = SearchResult {
        message_id: id.clone(),
        unique_id: id,
        channel: "sosoyunpan".to_owned(),
        channel_score: DEFAULT_CHANNEL_SCORE,
        datetime: dt,
        title,
        content: String::new(),
        links,
        tags: Vec::new(),
        images: Vec::new(),
    };
    proof {
        assert(r@.links =~= seq![link@]);
        assert(r@.tags =~= Seq::<Seq<char>>::empty());
        assert(r@.images =~= Seq::<Seq<char>>::empty());
    }
    Some(r)
}

impl SosoyunpanPlugin {
    /// The plugin's name.
    pub fn name(&self) -> (r: &'static str)
        ensures
            r@ == "sosoyunpan"@,
    {
        "sosoyunpan"
    }

    /// The plugin's priority.
    pub fn priority(&self) -> (r: i32)
        ensures
            r == DEFAULT_PRIORITY,
    {
        DEFAULT_PRIORITY
    }

    /// Reliability score of the plugin's results.
    pub fn channel_score(&self) -> (r: i32)
        ensures
            r == DEFAULT_CHANNEL_SCORE,
    {
        DEFAULT_CHANNEL_SCORE
    }

    /// The search results of the answer's files for `keyword` at time `now`:
    /// the files' results (see [`sosoyunpan_results`]) that match the keyword.
    pub fn results_from(&self, items: &Vec<SosoyunpanItem>, keyword: &str, now: i64) -> (r: Vec<
        SearchResult,
    >)
        ensures
            results_view(r@) == keyword_filtered(
                sosoyunpan_results(items@.map_values(|i: SosoyunpanItem| i@), now),
                keyword@,
            ),
    {
        let ghost iv = items@.map_values(|i: SosoyunpanItem| i@);
        let mut out: Vec<SearchResult> = Vec::new();
        let mut i: usize = 0;
        while i < items.len()
            invariant
                i <= items@.len(),
                iv == items@.map_values(|i: SosoyunpanItem| i@),
                results_view(out@) == sosoyunpan_results(iv.take(i as int), now),
            decreases items@.len() - i,
        {
            proof {
                assert(iv.take(i + 1).drop_last() =~= iv.take(i as int));
                assert(iv.take(i + 1).last() == items@[i as int]@);
            }
            let ghost before = results_view(out@);
            match result_of(&items[i], now) {
                Some(r) => {
                    out.push(r);
                    assert(results_view(out@) =~= before.push(r@));
                },
                None => {},
            }
            i = i + 1;
        }
        assert(iv.take(iv.len() as int) =~= iv);
        filter_results_by_keyword(&mut out, keyword);
        out
    }
}

} // verus!
