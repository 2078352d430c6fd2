//! Page helpers: crawler detection, related-search suggestions, and the
//! date filters of the page templates.
use vstd::prelude::*;
use crate::constants::{crawler_ua_fragment_list, crawler_ua_fragments};
use crate::text::{
    chars_of, concat2, contains_exec, seq_contains, spec_replace, spec_to_lowercase, str_contains,
    str_replace, to_lowercase,
};

verus! {

broadcast use vstd::string::group_string_axioms;

/// The user agent, lower-cased, contains one of the crawler fragments.
pub open spec fn is_crawler_ua(ua: Seq<char>) -> bool {
    exists|i: int|
        0 <= i < crawler_ua_fragments().len() && seq_contains(
            spec_to_lowercase(ua),
            #[trigger] crawler_ua_fragments()[i],
        )
}

/// Whether a request comes from a crawler (see [`is_crawler_ua`]).
pub fn is_crawler(user_agent: &str) -> (r: bool)
    ensures
        r == is_crawler_ua(user_agent@),
{
    let lower = to_lowercase(user_agent);
    let lv = chars_of(lower.as_str());
    let frags = crawler_ua_fragment_list();
    let ghost fv = frags@.map_values(|s: &str| s@);
    let mut i: usize = 0;
    while i < frags.len()
        invariant
            i <= frags@.len(),
            fv == frags@.map_values(|s: &str| s@),
            fv == crawler_ua_fragments(),
            lv@ == spec_to_lowercase(user_agent@),
            forall|j: int| 0 <= j < i ==> !seq_contains(lv@, #[trigger] fv[j]),
        decreases frags@.len() - i,
    {
        let f = chars_of(frags[i]);
        assert(f@ == fv[i as int]);
        if contains_exec(lv.as_slice(), f.as_slice()) {
            return true;
        }
        i = i + 1;
    }
    false
}

/// The suggestion made for `kw` and a suffix: without the suffix, `kw`
/// followed by it; with it, `kw` with every occurrence removed.
pub open spec fn suggestion(kw: Seq<char>, suffix: Seq<char>) -> Seq<char> {
    if !seq_contains(kw, suffix) {
        kw + suffix
    } else {
        spec_replace(kw, suffix, Seq::empty())
    }
}

/// Related searches for a keyword of 1 to 20 characters (none otherwise),
/// most general first: " 网盘", " 网盘下载", " 夸克网盘", " 阿里云盘",
/// " 百度网盘", each added to the keyword or, when the keyword already has
/// it, taken out of it.
pub open spec fn related_of(kw: Seq<char>) -> Seq<Seq<char>> {
    if kw.len() == 0 || kw.len() > 20 {
        Seq::empty()
    } else {
        seq![
            suggestion(kw, " 网盘"@),
            suggestion(kw, " 网盘下载"@),
            suggestion(kw, " 夸克网盘"@),
            suggestion(kw, " 阿里云盘"@),
            suggestion(kw, " 百度网盘"@),
        ]
    }
}

fn suggest(kw: &str, suffix: &str) -> (r: String)
    requires
        suffix@.len() > 0,
    ensures
        r@ == suggestion(kw@, suffix@),
{
    if !str_contains(kw, suffix) {
        concat2(kw, suffix)
    } else {
        proof {
            reveal_strlit("");
        }
        assert(""@ =~= Seq::<char>::empty());
        str_replace(kw, suffix, "")
    }
}

/// Related-search suggestions for a keyword (see [`related_of`]).
pub fn related_searches(keyword: &str) -> (r: Vec<String>)
    ensures
        r@.map_values(|s: String| s@) == related_of(keyword@),
{
    let kv = chars_of(keyword);
    if kv.len() == 0 || kv.len() > 20 {
        let r: Vec<String> = Vec::new();
        assert(r@.map_values(|s: String| s@) =~= related_of(keyword@));
        return r;
    }
    proof {
        reveal_strlit(" 百度网盘");
        reveal_strlit(" 阿里云盘");
        reveal_strlit(" 夸克网盘");
        reveal_strlit(" 网盘下载");
        reveal_strlit(" 网盘");
        reveal_strlit("");
    }
    let mut r: Vec<String> = Vec::new();
    r.insert(0, suggest(keyword, " 百度网盘"));
    r.insert(0, suggest(keyword, " 阿里云盘"));
    r.insert(0, suggest(keyword, " 夸克网盘"));
    r.insert(0, suggest(keyword, " 网盘下载"));
    r.insert(0, suggest(keyword, " 网盘"));
    assert(r@.map_values(|s: String| s@) =~= related_of(keyword@));
    r
}

} // verus!
