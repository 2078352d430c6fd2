//! Search plugins: the sites searched besides Telegram channels. Each
//! plugin turns what its site answered into search results; fetching is
//! done by the caller.
use vstd::prelude::*;
use crate::model::{SearchResult, SearchResultView, results_view};
use crate::text::{chars_of, contains_exec, seq_contains, spec_to_lowercase, to_lowercase, words_of, ws_words};

pub mod alupan;
pub mod jikepan;
pub mod pan666;
pub mod panshushu;
pub mod sosoyunpan;
pub mod yunsou;

verus! {

broadcast use vstd::string::group_string_axioms;

/// Priority of a plugin that does not choose one.
pub const DEFAULT_PRIORITY: i32 = 3;

/// Reliability score given to the results of a plugin that does not choose one.
pub const DEFAULT_CHANNEL_SCORE: i32 = 0;

/// Every word occurs in the lower-cased title or the lower-cased content.
pub open spec fn hits_keywords(words: Seq<Seq<char>>, r: SearchResultView) -> bool {
    forall|k: int|
        0 <= k < words.len() ==> seq_contains(spec_to_lowercase(r.title), #[trigger] words[k])
            || seq_contains(spec_to_lowercase(r.content), words[k])
}

/// The results that hit every word, in order.
pub open spec fn keep_hits(rs: Seq<SearchResultView>, words: Seq<Seq<char>>) -> Seq<SearchResultView>
    decreases rs.len(),
{
    if rs.len() == 0 {
        rs
    } else if hits_keywords(words, rs.last()) {
        keep_hits(rs.drop_last(), words).push(rs.last())
    } else {
        keep_hits(rs.drop_last(), words)
    }
}

/// The results kept for a keyword: all of them for an empty keyword;
/// otherwise those whose title or content contains each whitespace-separated
/// word of the keyword, compared in lower case.
pub open spec fn keyword_filtered(rs: Seq<SearchResultView>, kw: Seq<char>) -> Seq<SearchResultView> {
    if kw.len() == 0 {
        rs
    } else {
        keep_hits(rs, ws_words(spec_to_lowercase(kw)))
    }
}

fn hits(words: &Vec<Vec<char>>, r: &SearchResult) -> (b: bool)
    ensures
        b == hits_keywords(words@.map_values(|v: Vec<char>| v@), r@),
{
    let ghost wv = words@.map_values(|v: Vec<char>| v@);
    let lt = to_lowercase(r.title.as_str());
    let lc = to_lowercase(r.content.as_str());
    let tv = chars_of(lt.as_str());
    let cv = chars_of(lc.as_str());
    let mut k: usize = 0;
    while k < words.len()
        invariant
            k <= words@.len(),
            wv == words@.map_values(|v: Vec<char>| v@),
            tv@ == spec_to_lowercase(r@.title),
            cv@ == spec_to_lowercase(r@.content),
            forall|j: int|
                0 <= j < k ==> seq_contains(tv@, #[trigger] wv[j]) || seq_contains(cv@, wv[j]),
        decreases words@.len() - k,
    {
        assert(words@[k as int]@ == wv[k as int]);
        if !contains_exec(tv.as_slice(), words[k].as_slice()) && !contains_exec(
            cv.as_slice(),
            words[k].as_slice(),
        ) {
            return false;
        }
        k = k + 1;
    }
    true
}

/// Keeps the results that match the keyword (see [`keyword_filtered`]).
pub fn filter_results_by_keyword(results: &mut Vec<SearchResult>, keyword: &str)
    ensures
        results_view(final(results)@) == keyword_filtered(results_view(old(results)@), keyword@),
{
    if keyword.is_empty() {
        return ;
    }
    let lower = to_lowercase(keyword);
    let lv = chars_of(lower.as_str());
    let words = words_of(lv.as_slice());
    let ghost wv = words@.map_values(|v: Vec<char>| v@);
    let mut all: Vec<SearchResult> = Vec::new();
    std::mem::swap(&mut all, results);
    let ghost av = results_view(all@);
    let mut kept: Vec<SearchResult> = Vec::new();
    let mut i: usize = 0;
    while i < all.len()
        invariant
            i <= all@.len(),
            av == results_view(all@),
            wv == words@.map_values(|v: Vec<char>| v@),
            results_view(kept@) == keep_hits(av.take(i as int), wv),
        decreases all@.len() - i,
    {
        proof {
            assert(av.take(i + 1).drop_last() =~= av.take(i as int));
            assert(av.take(i + 1).last() == all@[i as int]@);
        }
        if hits(&words, &all[i]) {
            let ghost before = results_view(kept@);
            let d = all[i].duplicate();
            kept.push(d);
            assert(results_view(kept@) =~= before.push(d@));
        }
        i = i + 1;
    }
    assert(av.take(av.len() as int) =~= av);
    *results = kept;
}


/// Filtering keeps only results that match every word, each taken from
/// the input, and loses none that matches.
pub proof fn law_keep_hits_exact(rs: Seq<SearchResultView>, words: Seq<Seq<char>>)
    ensures
        forall|i: int| 0 <= i < keep_hits(rs, words).len() ==> hits_keywords(words, #[trigger] keep_hits(rs, words)[i]) && rs.contains(keep_hits(rs, words)[i]),
        forall|i: int| 0 <= i < rs.len() && hits_keywords(words, #[trigger] rs[i]) ==> keep_hits(rs, words).contains(rs[i]),
        keep_hits(rs, words).len() <= rs.len(),
    decreases rs.len(),
{
    if rs.len() > 0 {
        law_keep_hits_exact(rs.drop_last(), words);
        let prev = keep_hits(rs.drop_last(), words);
        assert forall|i: int| 0 <= i < keep_hits(rs, words).len() implies hits_keywords(words, #[trigger] keep_hits(rs, words)[i]) && rs.contains(keep_hits(rs, words)[i]) by {
            if i < prev.len() {
                assert(keep_hits(rs, words)[i] == prev[i]);
                let j = choose|j: int| 0 <= j < rs.drop_last().len() && rs.drop_last()[j] == prev[i];
                assert(rs[j] == prev[i]);
            } else {
                assert(keep_hits(rs, words)[i] == rs.last());
                assert(rs[rs.len() - 1] == rs.last());
            }
        }
        assert forall|i: int| 0 <= i < rs.len() && hits_keywords(words, #[trigger] rs[i]) implies keep_hits(rs, words).contains(rs[i]) by {
            if i < rs.len() - 1 {
                assert(rs.drop_last()[i] == rs[i]);
                let j = choose|j: int| 0 <= j < prev.len() && prev[j] == rs[i];
                assert(keep_hits(rs, words)[j] == rs[i]);
            } else {
                assert(keep_hits(rs, words)[keep_hits(rs, words).len() - 1] == rs.last());
            }
        }
    }
}

/// Filtering a second time by the same keyword changes nothing.
pub proof fn law_keyword_filter_idempotent(rs: Seq<SearchResultView>, kw: Seq<char>)
    ensures
        keyword_filtered(keyword_filtered(rs, kw), kw) == keyword_filtered(rs, kw),
{
    if kw.len() > 0 {
        lemma_keep_hits_twice(rs, ws_words(spec_to_lowercase(kw)));
    }
}

proof fn lemma_keep_hits_twice(rs: Seq<SearchResultView>, words: Seq<Seq<char>>)
    ensures
        keep_hits(keep_hits(rs, words), words) == keep_hits(rs, words),
    decreases rs.len(),
{
    if rs.len() > 0 {
        lemma_keep_hits_twice(rs.drop_last(), words);
        let prev = keep_hits(rs.drop_last(), words);
        if hits_keywords(words, rs.last()) {
            let k = prev.push(rs.last());
            assert(k.drop_last() =~= prev);
        }
    }
}

} // verus!
