//! The yunsou plugin: a search page that embeds its results as a JSON
//! array in a script variable.
use vstd::prelude::*;
use crate::constants::{DiskType, disk_type_name};
use crate::clock::{parse_ymd_ms, spec_ymd_ms};
use crate::model::{Link, LinkView, SearchResult, SearchResultView, opt_view, results_view};
use crate::pattern::{regex_capture1, regex_replace_all, spec_regex_capture1, spec_regex_replace_all};
use crate::plugin::{DEFAULT_CHANNEL_SCORE, filter_results_by_keyword, keyword_filtered};
use crate::plugin::sosoyunpan::present;
use crate::text::{
    concat2, form_urlencode, i64_text, int_text, spec_form_urlencode, spec_replace, str_replace,
};

verus! {

broadcast use vstd::string::group_string_axioms;

/// The yunsou search plugin.
pub struct YunsouPlugin;

/// One item of the embedded answer.
pub struct YunsouItem {
    pub id: i64,
    pub title: String,
    pub is_type: i32,
    pub code: Option<String>,
    pub url: String,
    pub times: String,
    pub category_name: String,
}

/// Mathematical view of a [`YunsouItem`].
pub struct YunsouItemView {
    pub id: i64,
    pub title: Seq<char>,
    pub is_type: i32,
    pub code: Option<Seq<char>>,
    pub url: Seq<char>,
    pub times: Seq<char>,
    pub category_name: Seq<char>,
}

impl View for YunsouItem {
    type V = YunsouItemView;

    open spec fn view(&self) -> YunsouItemView {
        YunsouItemView {
            id: self.id,
            title: self.title@,
            is_type: self.is_type,
            code: opt_view(self.code),
            url: self.url@,
            times: self.times@,
            category_name: self.category_name@,
        }
    }
}

/// Priority of the yunsou plugin.
pub const YUNSOU_PRIORITY: i32 = 2;

/// Drive kind of the site's type number.
pub open spec fn yunsou_kind(t: i32) -> Seq<char> {
    if t == 0 {
        "quark"@
    } else if t == 1 {
        "aliyun"@
    } else if t == 2 {
        "baidu"@
    } else if t == 3 {
        "uc"@
    } else if t == 4 {
        "xunlei"@
    } else {
        "others"@
    }
}

/// The site's type numbers name the drive kinds 0 quark, 1 aliyun, 2 baidu,
/// 3 uc, 4 xunlei; any other number is `others`. Distinct numbers from 0
/// to 4 name distinct known kinds.
pub proof fn law_yunsou_kinds(t: i32, u: i32)
    ensures
        t == 0 ==> yunsou_kind(t) == disk_type_name(DiskType::Quark),
        t == 1 ==> yunsou_kind(t) == disk_type_name(DiskType::Aliyun),
        t == 2 ==> yunsou_kind(t) == disk_type_name(DiskType::Baidu),
        t == 3 ==> yunsou_kind(t) == disk_type_name(DiskType::Uc),
        t == 4 ==> yunsou_kind(t) == disk_type_name(DiskType::Xunlei),
        !(0 <= t <= 4) ==> yunsou_kind(t) == disk_type_name(DiskType::Others),
        0 <= t <= 4 && 0 <= u <= 4 && t != u ==> yunsou_kind(t) != yunsou_kind(u),
        0 <= t <= 4 ==> yunsou_kind(t) != disk_type_name(DiskType::Others),
{
    reveal_strlit("quark");
    reveal_strlit("aliyun");
    reveal_strlit("baidu");
    reveal_strlit("uc");
    reveal_strlit("xunlei");
    reveal_strlit("others");
    // The six names start with six different letters.
    assert("quark"@[0] == 'q' && "aliyun"@[0] == 'a' && "baidu"@[0] == 'b');
    assert("uc"@[0] == 'u' && "xunlei"@[0] == 'x' && "others"@[0] == 'o');
    if 0 <= t <= 4 && 0 <= u <= 4 && t != u {
        assert(yunsou_kind(t)[0] != yunsou_kind(u)[0]);
    }
    if 0 <= t <= 4 {
        assert(yunsou_kind(t)[0] != "others"@[0]);
    }
}

/// Drive kind of the site's type number (see [`yunsou_kind`]).
pub fn convert_disk_type(is_type: i32) -> (r: String)
    ensures
        r@ == yunsou_kind(is_type),
{
    if is_type == 0 {
        "quark".to_owned()
    } else if is_type == 1 {
        "aliyun".to_owned()
    } else if is_type == 2 {
        "baidu".to_owned()
    } else if is_type == 3 {
        "uc".to_owned()
    } else if is_type == 4 {
        "xunlei".to_owned()
    } else {
        "others".to_owned()
    }
}

/// Pattern of a `pwd` query parameter.
pub open spec fn url_pwd_pattern() -> Seq<char> {
    "[?&]pwd=([0-9a-zA-Z]+)"@
}

/// The value of the `pwd` query parameter of a URL, if any.
pub fn extract_pwd_from_url(url: &str) -> (r: Option<String>)
    ensures
        opt_view(r) == spec_regex_capture1(url_pwd_pattern(), url@),
{
    regex_capture1("[?&]pwd=([0-9a-zA-Z]+)", url)
}

/// Pattern of the script variable holding the answer.
pub open spec fn json_data_pattern() -> Seq<char> {
    "var jsonData = '(.+?)';"@
}

/// Pattern of the control characters removed from the answer.
pub open spec fn control_pattern() -> Seq<char> {
    "[\\x00-\\x1F\\x7F]"@
}

/// The JSON text of the answer in a page: the value of the `jsonData`
/// variable without control characters and with `\/` written `/`.
pub open spec fn json_data_of(body: Seq<char>) -> Option<Seq<char>> {
    match spec_regex_capture1(json_data_pattern(), body) {
        Some(raw) => match spec_regex_replace_all(control_pattern(), raw, Seq::empty()) {
            Some(c) => Some(spec_replace(c, "\\/"@, "/"@)),
            None => None,
        },
        None => None,
    }
}

/// The password of an item: its code when given and not empty, else the
/// `pwd` parameter of its URL, else empty.
pub open spec fn item_password(it: YunsouItemView) -> Seq<char> {
    match present(it.code) {
        Some(c) => c,
        None => match spec_regex_capture1(url_pwd_pattern(), it.url) {
            Some(p) => p,
            None => Seq::empty(),
        },
    }
}

/// The result of an item: `None` without a URL. The date is the item's day
/// (midnight UTC), or `now`; the category, when there is one, is the
/// content (in 【】) and the only tag.
pub open spec fn yunsou_result(it: YunsouItemView, now: i64) -> Option<SearchResultView> {
    if it.url.len() == 0 {
        None
    } else {
        let id = "yunsou-"@ + int_text(it.id as int);
        let has_cat = it.category_name.len() > 0;
        Some(
            SearchResultView {
                message_id: id,
                unique_id: id,
                channel: Seq::empty(),
                channel_score: DEFAULT_CHANNEL_SCORE,
                datetime: match spec_ymd_ms(it.times) {
                    Some(ms) => ms,
                    None => now,
                },
                title: it.title,
                content: if has_cat {
                    "【"@ + it.category_name + "】"@
                } else {
                    Seq::empty()
                },
                links: seq![
                    LinkView {
                        disk_type: yunsou_kind(it.is_type),
                        url: it.url,
                        password: item_password(it),
                        datetime: None,
                        work_title: None,
                    },
                ],
                tags: if has_cat {
                    seq![it.category_name]
                } else {
                    Seq::empty()
                },
                images: Seq::empty(),
            },
        )
    }
}

/// The results of the items, in order.
pub open spec fn yunsou_results(items: Seq<YunsouItemView>, now: i64) -> Seq<SearchResultView>
    decreases items.len(),
{
    if items.len() == 0 {
        Seq::empty()
    } else {
        let prev = yunsou_results(items.drop_last(), now);
        match yunsou_result(items.last(), now) {
            Some(r) => prev.push(r),
            None => prev,
        }
    }
}

/// The address of the search page for `kw`.
pub open spec fn yunsou_url(kw: Seq<char>) -> Seq<char> {
    "https://wpys.cc/s/"@ + spec_form_urlencode(kw) + ".html"@
}

fn result_of(it: &YunsouItem, now: i64) -> (r: Option<SearchResult>)
    ensures
        match r {
            Some(x) => yunsou_result(it@, now) == Some(x@),
            None => yunsou_result(it@, now) is None,
        },
{
    if it.url.as_str().is_empty() {
        return None;
    }
    let dt: i64 = match parse_ymd_ms(it.times.as_str()) {
        Some(ms) => ms,
        None => now,
    };
    let password = match &it.code {
        Some(c) if !c.as_str().is_empty() => c.clone(),
        _ => match extract_pwd_from_url(it.url.as_str()) {
            Some(p) => p,
            None => String::new(),
        },
    };
    let has_cat = !it.category_name.as_str().is_empty();
    let content = if has_cat {
        let mut c = String::from_str("【");
        c.append(it.category_name.as_str());
        c.append("】");
        c
    } else {
        String::new()
    };
    let mut tags: Vec<String> = Vec::new();
    if has_cat {
        tags.push(it.category_name.clone());
    }
    let id = concat2("yunsou-", i64_text(it.id).as_str());
    let link = Link {
        disk_type: convert_disk_type(it.is_type),
        url: it.url.clone(),
        password,
        datetime: None,
        work_title: None,
    };
    let mut links: Vec<Link> = Vec::new();
    links.push(link);
    let r = SearchResult {
        message_id: id.clone(),
        unique_id: id,
        channel: String::new(),
        channel_score: DEFAULT_CHANNEL_SCORE,
        datetime: dt,
        title: it.title.clone(),
        content,
        links,
        tags,
        images: Vec::new(),
    };
    proof {
        assert(r@.links =~= seq![link@]);
        if has_cat {
            assert(r@.tags =~= seq![it@.category_name]);
        } else {
            assert(r@.tags =~= Seq::<Seq<char>>::empty());
        }
        assert(r@.images =~= Seq::<Seq<char>>::empty());
    }
    Some(r)
}

impl YunsouPlugin {
    /// The plugin's name.
    pub fn name(&self) -> (r: &'static str)
        ensures
            r@ == "yunsou"@,
    {
        "yunsou"
    }

    /// The plugin's priority.
    pub fn priority(&self) -> (r: i32)
        ensures
            r == YUNSOU_PRIORITY,
    {
        YUNSOU_PRIORITY
    }

    /// Reliability score of the plugin's results.
    pub fn channel_score(&self) -> (r: i32)
        ensures
            r == DEFAULT_CHANNEL_SCORE,
    {
        DEFAULT_CHANNEL_SCORE
    }

    /// The address of the search page for a keyword.
    pub fn search_url(&self, keyword: &str) -> (r: String)
        ensures
            r@ == yunsou_url(keyword@),
    {
        let mut r = String::from_str("https://wpys.cc/s/");
        r.append(form_urlencode(keyword).as_str());
        r.append(".html");
        r
    }

    /// The JSON text of the answer embedded in a search page (see
    /// [`json_data_of`]).
    pub fn json_data(&self, body: &str) -> (r: Option<String>)
        ensures
            opt_view(r) == json_data_of(body@),
    {
        let raw = match regex_capture1("var jsonData = '(.+?)';", body) {
            Some(raw) => raw,
            None => {
                return None;
            },
        };
        proof {
            reveal_strlit("");
        }
        assert(""@ =~= Seq::<char>::empty());
        let cleaned = match regex_replace_all("[\\x00-\\x1F\\x7F]", raw.as_str(), "") {
            Some(c) => c,
            None => {
                return None;
            },
        };
        proof {
            reveal_strlit("\\/");
        }
        Some(str_replace(cleaned.as_str(), "\\/", "/"))
    }

    /// The search results of the answer's items for `keyword` at time
    /// `now`: the items' results (see [`yunsou_results`]) that match the
    /// keyword.
    pub fn results_from(&self, items: &Vec<YunsouItem>, keyword: &str, now: i64) -> (r: Vec<
        SearchResult,
    >)
        ensures
            results_view(r@) == keyword_filtered(
                yunsou_results(items@.map_values(|i: YunsouItem| i@), now),
                keyword@,
            ),
    {
        let ghost iv = items@.map_values(|i: YunsouItem| i@);
        let mut out: Vec<SearchResult> = Vec::new();
        let mut i: usize = 0;
        while i < items.len()
            invariant
                i <= items@.len(),
                iv == items@.map_values(|i: YunsouItem| i@),
                results_view(out@) == yunsou_results(iv.take(i as int), now),
            decreases items@.len() - i,
        {
            proof {
                assert(iv.take(i + 1).drop_last() =~= iv.take(i as int));
                assert(iv.take(i + 1).last() == items@[i as int]@);
            }
            let ghost before = results_view(out@);
            match result_of(&items[i], now) {
                Some(r) => {
                    out.push(r);
                    assert(results_view(out@) =~= before.push(r@));
                },
                None => {},
            }
            i = i + 1;
        }
        assert(iv.take(iv.len() as int) =~= iv);
        filter_results_by_keyword(&mut out, keyword);
        out
    }
}

} // verus!
