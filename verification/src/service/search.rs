//! Search: scoring, ordering, merging and caching of search results, and
//! extraction of share links from message text.
use vstd::prelude::*;
use vstd::utf8::encode_utf8;
use crate::model::{Link, LinkView, SearchRequest, SearchResponse, SearchResponseView, SearchResult, SearchResultView, results_view, strs_view};
use crate::constants::{DiskType, disk_type_name, disk_type_of_lower};
use crate::pattern::{opt_strs_view, regex_capture1, regex_find_all, spec_regex_capture1, spec_regex_find_all};
use crate::text::{chars_of, chars_eq, concat2, string_of, spec_to_lowercase, spec_trim, trim_chars, split_char, split_chars, seq_contains, str_contains, form_urlencode, spec_form_urlencode};
use crate::clock::{parse_rfc3339_ms, spec_rfc3339_ms};
use crate::html::{FieldPath, NodeReadView, field_view, fields_view, page_rows, read_page, rows_view};
use crate::service::refine::{shape_response, shaped};

verus! {

broadcast use vstd::string::group_string_axioms;

// ---------------------------------------------------------------------
// Scores
// ---------------------------------------------------------------------

/// Milliseconds in an hour.
pub const HOUR_MS: i64 = 3_600_000;

/// Completeness of a result: 10 for a non-empty unique id, 2 per link,
/// 3 for non-empty content, 1 per tag, and a tenth of the title's length
/// in UTF-8 bytes. The more complete the information, the higher.
pub open spec fn completeness_of(r: SearchResultView) -> int {
    (if r.unique_id.len() > 0 { 10int } else { 0int }) + r.links.len() * 2 + (if r.content.len()
        > 0 {
        3int
    } else {
        0int
    }) + r.tags.len() + (encode_utf8(r.title).len() as usize) / 10
}

/// Completeness score (see [`completeness_of`]).
pub fn completeness(r: &SearchResult) -> (s: u128)
    ensures
        s == completeness_of(r@),
{
    let mut score: u128 = 0;
    if !r.unique_id.as_str().is_empty() {
        score = score + 10;
    }
    let nl = r.links.len() as u128;
    score = score + nl * 2;
    if !r.content.as_str().is_empty() {
        score = score + 3;
    }
    let title_bytes = r.title.as_str().len();
    assert(r.links@.len() == r@.links.len());
    assert(r.tags@.len() == r@.tags.len());
    score + r.tags.len() as u128 + (title_bytes / 10) as u128
}

/// Whole hours elapsed from `dt` to `now` (both in milliseconds), truncated
/// toward zero.
pub open spec fn elapsed_hours(now: i64, dt: i64) -> int {
    let d = now - dt;
    if d >= 0 {
        d / (HOUR_MS as int)
    } else {
        -((-d) / (HOUR_MS as int))
    }
}

/// Recency score of a publication time: the fewer days since publication,
/// the higher. Up to 1 day: 500; up to 3 days: 400; up to 7 days: 300; up
/// to 30 days: 200; up to 90 days: 100; up to 365 days: 50; older: 20.
pub open spec fn time_score_of(now: i64, dt: i64) -> int {
    let h = elapsed_hours(now, dt);
    if h <= 24 {
        500
    } else if h <= 72 {
        400
    } else if h <= 168 {
        300
    } else if h <= 720 {
        200
    } else if h <= 2160 {
        100
    } else if h <= 8760 {
        50
    } else {
        20
    }
}

/// Recency score (see [`time_score_of`]) of `datetime` as seen at `now`.
pub fn time_score(now: i64, datetime: i64) -> (s: i64)
    ensures
        s == time_score_of(now, datetime),
{
    let d: i128 = now as i128 - datetime as i128;
    let h: i128 = if d >= 0 {
        d / (HOUR_MS as i128)
    } else {
        -((-d) / (HOUR_MS as i128))
    };
    if h <= 24 {
        500
    } else if h <= 72 {
        400
    } else if h <= 168 {
        300
    } else if h <= 720 {
        200
    } else if h <= 2160 {
        100
    } else if h <= 8760 {
        50
    } else {
        20
    }
}

/// Total score of a result at `now`: recency score plus channel score.
pub open spec fn total_score_of(r: SearchResult, now: i64) -> int {
    time_score_of(now, r.datetime) + r.channel_score
}

/// Total score (see [`total_score_of`]).
pub fn total_score(r: &SearchResult, now: i64) -> (s: i64)
    ensures
        s == total_score_of(*r, now),
{
    time_score(now, r.datetime) + r.channel_score as i64
}

// ---------------------------------------------------------------------
// Ordering
// ---------------------------------------------------------------------

/// Position at which `x` goes into `s` (sorted by descending score): after
/// every element whose score is at least that of `x`, searching from `i`.
pub open spec fn insert_pos_from(s: Seq<SearchResult>, x: SearchResult, now: i64, i: int) -> int
    decreases s.len() - i,
{
    if i >= s.len() || i < 0 {
        s.len() as int
    } else if total_score_of(s[i], now) < total_score_of(x, now) {
        i
    } else {
        insert_pos_from(s, x, now, i + 1)
    }
}

/// `s` with `x` inserted after the elements scoring at least as much as `x`.
pub open spec fn insert_by_score(s: Seq<SearchResult>, x: SearchResult, now: i64) -> Seq<
    SearchResult,
> {
    s.insert(insert_pos_from(s, x, now, 0), x)
}

/// The results ordered by descending total score at `now`; results with
/// equal scores keep their original relative order (a stable sort).
pub open spec fn sorted_by_score(s: Seq<SearchResult>, now: i64) -> Seq<SearchResult>
    decreases s.len(),
{
    if s.len() == 0 {
        s
    } else {
        insert_by_score(sorted_by_score(s.drop_last(), now), s.last(), now)
    }
}

/// Scores never increase along `s`.
pub open spec fn is_score_descending(s: Seq<SearchResult>, now: i64) -> bool {
    forall|i: int, j: int|
        0 <= i < j < s.len() ==> total_score_of(#[trigger] s[i], now) >= total_score_of(
            #[trigger] s[j],
            now,
        )
}

proof fn lemma_insert_pos_from(s: Seq<SearchResult>, x: SearchResult, now: i64, i: int)
    requires
        0 <= i <= s.len(),
    ensures
        i <= insert_pos_from(s, x, now, i) <= s.len(),
        forall|k: int|
            i <= k < insert_pos_from(s, x, now, i) ==> total_score_of(#[trigger] s[k], now)
                >= total_score_of(x, now),
        insert_pos_from(s, x, now, i) < s.len() ==> total_score_of(
            s[insert_pos_from(s, x, now, i)],
            now,
        ) < total_score_of(x, now),
    decreases s.len() - i,
{
    if i < s.len() && total_score_of(s[i], now) >= total_score_of(x, now) {
        lemma_insert_pos_from(s, x, now, i + 1);
    }
}

/// Ordering results puts them in descending score order and keeps every
/// result: the output is a permutation of the input.
pub proof fn law_sorted_by_score(s: Seq<SearchResult>, now: i64)
    ensures
        is_score_descending(sorted_by_score(s, now), now),
        sorted_by_score(s, now).to_multiset() == s.to_multiset(),
    decreases s.len(),
{
    broadcast use vstd::seq_lib::group_to_multiset_ensures;

    if s.len() > 0 {
        let t = sorted_by_score(s.drop_last(), now);
        law_sorted_by_score(s.drop_last(), now);
        let x = s.last();
        lemma_insert_pos_from(t, x, now, 0);
        let p = insert_pos_from(t, x, now, 0);
        let u = t.insert(p, x);
        t.insert_ensures(p, x);
        assert forall|i: int, j: int| 0 <= i < j < u.len() implies total_score_of(
            #[trigger] u[i],
            now,
        ) >= total_score_of(#[trigger] u[j], now) by {
            if j < p {
            } else if j == p {
            } else if i < p {
                assert(u[j] == t[j - 1]);
                if p < t.len() {
                    assert(total_score_of(t[p], now) >= total_score_of(t[j - 1], now));
                }
            } else if i == p {
                assert(u[j] == t[j - 1]);
                assert(total_score_of(t[p], now) >= total_score_of(t[j - 1], now));
            } else {
                assert(u[i] == t[i - 1]);
                assert(u[j] == t[j - 1]);
            }
        }
        assert(u.remove(p) =~= t);
        assert(u.to_multiset().remove(x) =~= t.to_multiset());
        assert(u.contains(x) && u[p] == x);
        assert(u.to_multiset().count(x) > 0);
        assert(s.drop_last().push(x) =~= s);
        assert(u.to_multiset() =~= t.to_multiset().insert(x));
    }
}

/// Orders `results` by descending total score at `now` (stable).
pub fn sort_results_at(results: &mut Vec<SearchResult>, now: i64)
    ensures
        final(results)@ == sorted_by_score(old(results)@, now),
{
    let mut input: Vec<SearchResult> = Vec::new();
    std::mem::swap(&mut input, results);
    let ghost orig = input@;
    let n = input.len();
    let mut out: Vec<SearchResult> = Vec::new();
    let mut taken: usize = 0;
    while input.len() > 0
        invariant
            n == orig.len(),
            taken + input@.len() == orig.len(),
            input@ == orig.skip(taken as int),
            out@ == sorted_by_score(orig.take(taken as int), now),
        decreases input@.len(),
    {
        let x = input.remove(0);
        let ghost prev = out@;
        let k = total_score(&x, now);
        let mut p: usize = 0;
        while p < out.len() && total_score(&out[p], now) >= k
            invariant
                out@ == prev,
                p <= out@.len(),
                k == total_score_of(x, now),
                insert_pos_from(prev, x, now, 0) == insert_pos_from(prev, x, now, p as int),
            decreases out@.len() - p,
        {
            p = p + 1;
        }
        out.insert(p, x);
        proof {
            assert(orig.take(taken + 1).drop_last() =~= orig.take(taken as int));
            assert(orig.take(taken + 1).last() == x) by {
                assert(orig.skip(taken as int)[0] == x);
            }
        }
        taken = taken + 1;
        assert(input@ =~= orig.skip(taken as int));
    }
    assert(orig.take(orig.len() as int) =~= orig);
    *results = out;
}

// ---------------------------------------------------------------------
// Merging
// ---------------------------------------------------------------------

/// The key under which results are merged: the unique id if non-empty,
/// else `title_<title>_<channel>`.
pub open spec fn merge_key(r: SearchResultView) -> Seq<char> {
    if r.unique_id.len() > 0 {
        r.unique_id
    } else {
        "title_"@ + r.title + "_"@ + r.channel
    }
}

/// Computes [`merge_key`].
pub fn merge_key_of(r: &SearchResult) -> (k: Vec<char>)
    ensures
        k@ == merge_key(r@),
{
    if !r.unique_id.as_str().is_empty() {
        chars_of(r.unique_id.as_str())
    } else {
        let a = concat2("title_", r.title.as_str());
        let b = concat2(a.as_str(), "_");
        let c = concat2(b.as_str(), r.channel.as_str());
        chars_of(c.as_str())
    }
}

/// First index at or after `i` of an element of `acc` whose merge key is `k`.
pub open spec fn key_index_from(acc: Seq<SearchResult>, k: Seq<char>, i: int) -> Option<int>
    decreases acc.len() - i,
{
    if i < 0 || i >= acc.len() {
        None
    } else if merge_key(acc[i]@) == k {
        Some(i)
    } else {
        key_index_from(acc, k, i + 1)
    }
}

/// Adds one result to a merged list: a result whose key is new is appended;
/// otherwise it replaces the kept result of that key only when it is
/// strictly more complete.
pub open spec fn merge_step(acc: Seq<SearchResult>, x: SearchResult) -> Seq<SearchResult> {
    match key_index_from(acc, merge_key(x@), 0) {
        Some(j) => if completeness_of(x@) > completeness_of(acc[j]@) {
            acc.update(j, x)
        } else {
            acc
        },
        None => acc.push(x),
    }
}

/// The results merged in order (see [`merge_step`]).
pub open spec fn merged(s: Seq<SearchResult>) -> Seq<SearchResult>
    decreases s.len(),
{
    if s.len() == 0 {
        s
    } else {
        merge_step(merged(s.drop_last()), s.last())
    }
}

proof fn lemma_key_index_from(acc: Seq<SearchResult>, k: Seq<char>, i: int)
    requires
        0 <= i,
    ensures
        key_index_from(acc, k, i) matches Some(j) ==> i <= j < acc.len() && merge_key(acc[j]@)
            == k,
        key_index_from(acc, k, i) is None ==> forall|j: int|
            i <= j < acc.len() ==> merge_key(#[trigger] acc[j]@) != k,
    decreases acc.len() - i,
{
    if i < acc.len() && merge_key(acc[i]@) != k {
        lemma_key_index_from(acc, k, i + 1);
    }
}

/// Position of the first key equal to `k`.
fn find_key(keys: &Vec<Vec<char>>, k: &[char], acc: &Vec<SearchResult>) -> (r: Option<usize>)
    requires
        keys@.len() == acc@.len(),
        forall|q: int| 0 <= q < acc@.len() ==> #[trigger] keys@[q]@ == merge_key(acc@[q]@),
    ensures
        r matches Some(j) ==> key_index_from(acc@, k@, 0) == Some(j as int),
        r is None ==> key_index_from(acc@, k@, 0) is None,
{
    let mut j: usize = 0;
    while j < keys.len()
        invariant
            keys@.len() == acc@.len(),
            forall|q: int| 0 <= q < acc@.len() ==> #[trigger] keys@[q]@ == merge_key(acc@[q]@),
            j <= keys@.len(),
            key_index_from(acc@, k@, 0) == key_index_from(acc@, k@, j as int),
        decreases keys@.len() - j,
    {
        if chars_eq(keys[j].as_slice(), k) {
            return Some(j);
        }
        j = j + 1;
    }
    None
}

/// Merged results have pairwise distinct merge keys.
pub open spec fn keys_unique(m: Seq<SearchResult>) -> bool {
    forall|i: int, j: int|
        0 <= i < j < m.len() ==> merge_key((#[trigger] m[i])@) != merge_key((#[trigger] m[j])@)
}

/// Merging keeps at most one result per key.
pub proof fn law_merge_keys_unique(s: Seq<SearchResult>)
    ensures
        keys_unique(merged(s)),
    decreases s.len(),
{
    if s.len() > 0 {
        let d = s.drop_last();
        let x = s.last();
        let acc = merged(d);
        law_merge_keys_unique(d);
        lemma_key_index_from(acc, merge_key(x@), 0);
        let m = merged(s);
        match key_index_from(acc, merge_key(x@), 0) {
            Some(j) => {
                assert forall|a: int, b: int| 0 <= a < b < m.len() implies merge_key(
                    (#[trigger] m[a])@,
                ) != merge_key((#[trigger] m[b])@) by {
                    assert(merge_key(m[a]@) == merge_key(acc[a]@));
                    assert(merge_key(m[b]@) == merge_key(acc[b]@));
                }
            },
            None => {
                assert forall|a: int, b: int| 0 <= a < b < m.len() implies merge_key(
                    (#[trigger] m[a])@,
                ) != merge_key((#[trigger] m[b])@) by {
                    assert(m[a] == acc[a]);
                    if b < m.len() - 1 {
                        assert(m[b] == acc[b]);
                    }
                }
            },
        }
    }
}

/// Merging keeps only given results.
pub proof fn law_merge_from_input(s: Seq<SearchResult>)
    ensures
        forall|i: int| 0 <= i < merged(s).len() ==> s.contains(#[trigger] merged(s)[i]),
    decreases s.len(),
{
    if s.len() > 0 {
        let d = s.drop_last();
        let x = s.last();
        let acc = merged(d);
        law_merge_from_input(d);
        lemma_key_index_from(acc, merge_key(x@), 0);
        let m = merged(s);
        assert forall|i: int| 0 <= i < m.len() implies s.contains(#[trigger] m[i]) by {
            match key_index_from(acc, merge_key(x@), 0) {
                Some(j) => {
                    assert(m.len() == acc.len());
                    if i != j {
                        assert(m[i] == acc[i]);
                    }
                },
                None => {
                    if i < acc.len() {
                        assert(m[i] == acc[i]);
                    }
                },
            }
            if m[i] == x {
                assert(s[s.len() - 1] == x);
            } else {
                assert(i < acc.len() && m[i] == acc[i]);
                assert(d.contains(acc[i]));
                let q = choose|q: int| 0 <= q < d.len() && d[q] == acc[i];
                assert(s[q] == acc[i]);
            }
        }
    }
}

/// Merging loses no key, and keeps for each key a result at least as
/// complete as every given result with that key.
pub proof fn law_merge_keeps_most_complete(s: Seq<SearchResult>)
    ensures
        forall|x: SearchResult|
            #[trigger] s.contains(x) ==> exists|i: int|
                0 <= i < merged(s).len() && merge_key(merged(s)[i]@) == merge_key(x@)
                    && completeness_of(merged(s)[i]@) >= completeness_of(x@),
    decreases s.len(),
{
    if s.len() > 0 {
        let d = s.drop_last();
        let x = s.last();
        let acc = merged(d);
        law_merge_keeps_most_complete(d);
        lemma_key_index_from(acc, merge_key(x@), 0);
        let m = merged(s);
        assert forall|y: SearchResult| #[trigger] s.contains(y) implies exists|i: int|
            0 <= i < m.len() && merge_key(m[i]@) == merge_key(y@) && completeness_of(m[i]@)
                >= completeness_of(y@) by {
            let q = choose|q: int| 0 <= q < s.len() && s[q] == y;
            match key_index_from(acc, merge_key(x@), 0) {
                Some(j) => {
                    if q == s.len() - 1 {
                        assert(merge_key(m[j]@) == merge_key(x@));
                    } else {
                        assert(d[q] == y);
                        assert(d.contains(y));
                        let i = choose|i: int|
                            0 <= i < acc.len() && merge_key(acc[i]@) == merge_key(y@)
                                && completeness_of(acc[i]@) >= completeness_of(y@);
                        assert(merge_key(m[i]@) == merge_key(acc[i]@));
                    }
                },
                None => {
                    if q == s.len() - 1 {
                        assert(m[m.len() - 1] == x);
                    } else {
                        assert(d[q] == y);
                        assert(d.contains(y));
                        let i = choose|i: int|
                            0 <= i < acc.len() && merge_key(acc[i]@) == merge_key(y@)
                                && completeness_of(acc[i]@) >= completeness_of(y@);
                        assert(m[i] == acc[i]);
                    }
                },
            }
        }
    }
}

/// Merges two lists of results: one result is kept per merge key, the most
/// complete one (the earliest among equally complete ones), in the order in
/// which the keys first appear in `existing` followed by `new_results`.
pub fn merge_search_results(existing: Vec<SearchResult>, new_results: Vec<SearchResult>) -> (r: Vec<
    SearchResult,
>)
    ensures
        r@ == merged(existing@ + new_results@),
{
    let mut input = existing;
    let mut rest = new_results;
    input.append(&mut rest);
    let ghost orig = input@;
    let n = input.len();
    let mut acc: Vec<SearchResult> = Vec::new();
    let mut keys: Vec<Vec<char>> = Vec::new();
    let mut taken: usize = 0;
    while input.len() > 0
        invariant
            n == orig.len(),
            taken + input@.len() == orig.len(),
            input@ == orig.skip(taken as int),
            acc@ == merged(orig.take(taken as int)),
            keys@.len() == acc@.len(),
            forall|j: int| 0 <= j < acc@.len() ==> #[trigger] keys@[j]@ == merge_key(acc@[j]@),
        decreases input@.len(),
    {
        let x = input.remove(0);
        let kx = merge_key_of(&x);
        let ghost prev = acc@;
        let pos = find_key(&keys, kx.as_slice(), &acc);
        proof {
            lemma_key_index_from(prev, kx@, 0);
        }
        match pos {
            Some(j) => {
                let cx = completeness(&x);
                let cj = completeness(&acc[j]);
                if cx > cj {
                    acc.set(j, x);
                }
            },
            None => {
                acc.push(x);
                keys.push(kx);
            },
        }
        proof {
            assert(orig.take(taken + 1).drop_last() =~= orig.take(taken as int));
            assert(orig.take(taken + 1).last() == x) by {
                assert(orig.skip(taken as int)[0] == x);
            }
        }
        taken = taken + 1;
        assert(input@ =~= orig.skip(taken as int));
    }
    assert(orig.take(orig.len() as int) =~= orig);
    acc
}

// ---------------------------------------------------------------------
// Links in message text
// ---------------------------------------------------------------------

/// Identifier of the drive kind of a URL (`"others"` when unknown).
pub open spec fn link_type_of(url: Seq<char>) -> Seq<char> {
    disk_type_name(disk_type_of_lower(spec_to_lowercase(url)))
}

/// Identifier of the drive kind of a URL (see [`DiskType::from_url`]).
pub fn link_type(url: &str) -> (r: String)
    ensures
        r@ == link_type_of(url@),
{
    DiskType::from_url(url).as_str().to_owned()
}

/// Pattern of a share link in message text.
pub open spec fn link_pattern() -> Seq<char> {
    "https?://[a-zA-Z0-9/_.\\-=&#?%+~]+"@
}

/// Patterns of a password in message text, tried in order.
pub open spec fn pwd_pattern_1() -> Seq<char> {
    "(?i)(?:提取码|访问码|pwd)[:：]?\\s*([a-zA-Z0-9]{4,6})"@
}

/// Second password pattern: a `pwd=` query parameter.
pub open spec fn pwd_pattern_2() -> Seq<char> {
    "(?i)[?&]pwd=([a-zA-Z0-9]{4,6})"@
}

/// The password found in a text: group 1 of the first pattern that
/// matches, or the empty string.
pub open spec fn pwd_of(content: Seq<char>) -> Seq<char> {
    match spec_regex_capture1(pwd_pattern_1(), content) {
        Some(p) => p,
        None => match spec_regex_capture1(pwd_pattern_2(), content) {
            Some(p) => p,
            None => Seq::empty(),
        },
    }
}

/// Finds the password (extraction code) written in a message.
pub fn extract_pwd(content: &str) -> (r: String)
    ensures
        r@ == pwd_of(content@),
{
    if let Some(p) = regex_capture1("(?i)(?:提取码|访问码|pwd)[:：]?\\s*([a-zA-Z0-9]{4,6})", content) {
        return p;
    }
    if let Some(p) = regex_capture1("(?i)[?&]pwd=([a-zA-Z0-9]{4,6})", content) {
        return p;
    }
    String::new()
}

/// The link made of a matched URL text.
pub open spec fn link_of_match(raw: Seq<char>, password: Seq<char>) -> LinkView {
    LinkView {
        disk_type: link_type_of(raw),
        url: raw,
        password: password,
        datetime: None,
        work_title: None,
    }
}

/// The links made of matched URL texts: each trimmed text is taken once, at
/// its first occurrence, and only when its drive kind is known.
pub open spec fn links_of_matches(ms: Seq<Seq<char>>, password: Seq<char>) -> Seq<LinkView>
    decreases ms.len(),
{
    if ms.len() == 0 {
        Seq::empty()
    } else {
        let prev = links_of_matches(ms.drop_last(), password);
        let raw = spec_trim(ms.last());
        if ms.drop_last().map_values(|m: Seq<char>| spec_trim(m)).contains(raw) || link_type_of(raw)
            == "others"@ {
            prev
        } else {
            prev.push(link_of_match(raw, password))
        }
    }
}

/// Turns matched URL texts into links (see [`links_of_matches`]).
pub fn links_from_matches(matches: Vec<String>, password: &str) -> (r: Vec<Link>)
    ensures
        crate::model::links_view(r@) == links_of_matches(strs_view(matches@), password@),
{
    let ghost ms = strs_view(matches@);
    let mut out: Vec<Link> = Vec::new();
    let mut seen: Vec<Vec<char>> = Vec::new();
    let mut i: usize = 0;
    while i < matches.len()
        invariant
            i <= matches@.len(),
            ms == strs_view(matches@),
            crate::model::links_view(out@) == links_of_matches(ms.take(i as int), password@),
            seen@.len() == i,
            forall|q: int| 0 <= q < i ==> #[trigger] seen@[q]@ == spec_trim(ms[q]),
        decreases matches@.len() - i,
    {
        let mv = chars_of(matches[i].as_str());
        let raw = trim_chars(mv.as_slice());
        let mut dup = false;
        let mut q: usize = 0;
        while q < seen.len()
            invariant
                seen@.len() == i,
                i < matches@.len(),
                q <= seen@.len(),
                raw@ == spec_trim(ms[i as int]),
                forall|t: int| 0 <= t < i ==> #[trigger] seen@[t]@ == spec_trim(ms[t]),
                dup <==> exists|t: int| 0 <= t < q && seen@[t]@ == raw@,
            decreases seen@.len() - q,
        {
            if chars_eq(seen[q].as_slice(), raw.as_slice()) {
                dup = true;
            }
            q = q + 1;
        }
        let raw_s = string_of(raw.as_slice());
        let dt = link_type(raw_s.as_str());
        let is_other = crate::text::str_eq(dt.as_str(), "others");
        proof {
            let pre = ms.take(i as int);
            let mapped = pre.map_values(|m: Seq<char>| spec_trim(m));
            assert(ms.take(i + 1).drop_last() =~= pre);
            assert(ms.take(i + 1).last() == ms[i as int]);
            if dup {
                let t = choose|t: int| 0 <= t < i && seen@[t]@ == raw@;
                assert(mapped[t] == raw@);
                assert(mapped.contains(raw@));
            } else {
                assert forall|t: int| 0 <= t < mapped.len() implies mapped[t] != raw@ by {
                    assert(seen@[t]@ == spec_trim(ms[t]));
                }
            }
        }
        if !dup && !is_other {
            out.push(Link {
                disk_type: dt,
                url: raw_s,
                password: password.to_owned(),
                datetime: None,
                work_title: None,
            });
        }
        seen.push(raw);
        i = i + 1;
        assert(crate::model::links_view(out@) =~= links_of_matches(ms.take(i as int), password@));
    }
    assert(ms.take(matches@.len() as int) =~= ms);
    out
}

/// The links in a message text: the share-link pattern is matched, and the
/// matches become links (see [`links_of_matches`]) carrying the password
/// found in the text. Nothing is found when the pattern yields nothing.
pub open spec fn links_in(content: Seq<char>) -> Seq<LinkView> {
    match spec_regex_find_all(link_pattern(), content) {
        Some(ms) => links_of_matches(ms, pwd_of(content)),
        None => Seq::empty(),
    }
}

/// The password patterns, piece by piece. The first: any case; one of the
/// words 提取码, 访问码, pwd; then an optional colon, ASCII `:` or
/// full-width `：`; optional white space; and 4 to 6 ASCII letters or
/// digits, captured. The second: a `pwd=` query parameter of 4 to 6 ASCII
/// letters or digits, captured. The password of a text is what the first
/// pattern captures; failing that, what the second captures; failing
/// that, nothing.
pub proof fn law_pwd_patterns(content: Seq<char>)
    ensures
        spec_regex_capture1(pwd_pattern_1(), content) matches Some(p) ==> pwd_of(content) == p,
        spec_regex_capture1(pwd_pattern_1(), content) is None ==> pwd_of(content)
            == match spec_regex_capture1(pwd_pattern_2(), content) {
            Some(p) => p,
            None => Seq::empty(),
        },
        pwd_pattern_1() == "(?i)"@ + "(?:提取码|访问码|pwd)"@ + "["@ + seq![':', '：'] + "]?"@
            + "\\s*"@ + "([a-zA-Z0-9]{4,6})"@,
        pwd_pattern_1().contains('：') && pwd_pattern_1().contains(':'),
        pwd_pattern_2() == "(?i)"@ + "[?&]pwd="@ + "([a-zA-Z0-9]{4,6})"@,
{
    reveal_strlit("(?i)(?:提取码|访问码|pwd)[:：]?\\s*([a-zA-Z0-9]{4,6})");
    reveal_strlit("(?i)[?&]pwd=([a-zA-Z0-9]{4,6})");
    reveal_strlit("(?i)");
    reveal_strlit("(?:提取码|访问码|pwd)");
    reveal_strlit("[");
    reveal_strlit("]?");
    reveal_strlit("\\s*");
    reveal_strlit("([a-zA-Z0-9]{4,6})");
    reveal_strlit("[?&]pwd=");
    let p1 = pwd_pattern_1();
    assert(p1 =~= "(?i)"@ + "(?:提取码|访问码|pwd)"@ + "["@ + seq![':', '：'] + "]?"@ + "\\s*"@
        + "([a-zA-Z0-9]{4,6})"@);
    assert(p1[21] == '：');
    assert(p1[20] == ':');
    assert(pwd_pattern_2() =~= "(?i)"@ + "[?&]pwd="@ + "([a-zA-Z0-9]{4,6})"@);
}

/// Every link read from a text is of a known drive kind (the kind its URL
/// shows), carries the password found in that text, and appears once.
pub proof fn law_links_carry_text_password(content: Seq<char>)
    ensures
        forall|i: int|
            0 <= i < links_in(content).len() ==> (#[trigger] links_in(content)[i]).password == pwd_of(
                content,
            ) && links_in(content)[i].disk_type == link_type_of(links_in(content)[i].url)
                && links_in(content)[i].disk_type != "others"@,
        forall|i: int, j: int|
            0 <= i < j < links_in(content).len() ==> (#[trigger] links_in(content)[i]).url != (
            #[trigger] links_in(content)[j]).url,
{
    match spec_regex_find_all(link_pattern(), content) {
        Some(ms) => lemma_links_of_matches(ms, pwd_of(content)),
        None => {},
    }
}

proof fn lemma_links_of_matches(ms: Seq<Seq<char>>, password: Seq<char>)
    ensures
        forall|i: int|
            0 <= i < links_of_matches(ms, password).len() ==> (#[trigger] links_of_matches(
                ms,
                password,
            )[i]).password == password && links_of_matches(ms, password)[i].disk_type
                == link_type_of(links_of_matches(ms, password)[i].url) && links_of_matches(
                ms,
                password,
            )[i].disk_type != "others"@ && ms.map_values(|m: Seq<char>| spec_trim(m)).contains(
                links_of_matches(ms, password)[i].url,
            ),
        forall|i: int, j: int|
            0 <= i < j < links_of_matches(ms, password).len() ==> (#[trigger] links_of_matches(
                ms,
                password,
            )[i]).url != (#[trigger] links_of_matches(ms, password)[j]).url,
    decreases ms.len(),
{
    if ms.len() > 0 {
        let d = ms.drop_last();
        lemma_links_of_matches(d, password);
        let prev = links_of_matches(d, password);
        let tm = ms.map_values(|m: Seq<char>| spec_trim(m));
        let td = d.map_values(|m: Seq<char>| spec_trim(m));
        assert forall|i: int| 0 <= i < prev.len() implies tm.contains(#[trigger] prev[i].url) by {
            let k = choose|k: int| 0 <= k < td.len() && td[k] == prev[i].url;
            assert(tm[k] == td[k]);
        }
        let raw = spec_trim(ms.last());
        assert(tm[ms.len() - 1] == raw);
        if !(td.contains(raw) || link_type_of(raw) == "others"@) {
            let cur = prev.push(link_of_match(raw, password));
            assert forall|i: int, j: int| 0 <= i < j < cur.len() implies (#[trigger] cur[i]).url
                != (#[trigger] cur[j]).url by {
                if j == prev.len() {
                    assert(cur[i] == prev[i]);
                    if prev[i].url == raw {
                        assert(td.contains(raw));
                    }
                } else {
                    assert(cur[i] == prev[i] && cur[j] == prev[j]);
                }
            }
        }
    }
}

/// Extracts the share links of known drive kinds from a message text.
pub fn extract_links(content: &str) -> (r: Vec<Link>)
    ensures
        crate::model::links_view(r@) == links_in(content@),
{
    match regex_find_all("https?://[a-zA-Z0-9/_.\\-=&#?%+~]+", content) {
        Some(ms) => {
            let pwd = extract_pwd(content);
            links_from_matches(ms, pwd.as_str())
        },
        None => {
            let r: Vec<Link> = Vec::new();
            assert(crate::model::links_view(r@) =~= Seq::<LinkView>::empty());
            r
        },
    }
}

// ---------------------------------------------------------------------
// Telegram channel pages
// ---------------------------------------------------------------------

/// Reliability score of the results of Telegram channels.
pub const TG_CHANNEL_SCORE: i32 = 40;

/// The address of the public search page of a Telegram channel.
pub open spec fn tg_search_url_of(channel: Seq<char>, kw: Seq<char>) -> Seq<char> {
    "https://t.me/s/"@ + channel + "?q="@ + spec_form_urlencode(kw)
}

/// The address of the search for `keyword` in `channel` (see
/// [`tg_search_url_of`]).
pub fn tg_search_url(channel: &str, keyword: &str) -> (r: String)
    ensures
        r@ == tg_search_url_of(channel@, keyword@),
{
    let mut r = String::from_str("https://t.me/s/");
    r.append(channel);
    r.append("?q=");
    r.append(form_urlencode(keyword).as_str());
    r
}

/// What is read of each message of a channel page: the message (with its
/// `data-post` attribute), its time (with its `datetime` attribute), and
/// its text.
pub open spec fn tg_fields() -> Seq<(Seq<Seq<char>>, Seq<char>)> {
    seq![
        (seq![".tgme_widget_message"@], "data-post"@),
        (seq![".tgme_widget_message"@, ".tgme_widget_message_date time"@], "datetime"@),
        (seq![".tgme_widget_message"@, ".tgme_widget_message_text"@], "data-post"@),
    ]
}

/// The message number in a `data-post` value (`channel/number`): the piece
/// after the first `/`, or empty.
pub open spec fn post_number(data_post: Seq<char>) -> Seq<char> {
    let ps = split_char(data_post, '/');
    if ps.len() > 1 {
        ps[1]
    } else {
        Seq::empty()
    }
}

/// The title of a message: its first line, trimmed, cut to 48 characters
/// followed by `...` when longer.
pub open spec fn tg_title(text: Seq<char>) -> Seq<char> {
    let first = spec_trim(split_char(text, '\n')[0]);
    if first.len() > 48 {
        first.take(48) + "..."@
    } else {
        first
    }
}

/// The result of a message read from channel `channel`'s page: `None`
/// without a message or message number, when the title lacks the keyword,
/// or when the text has no share link.
pub open spec fn tg_result_of(
    row: Seq<Option<NodeReadView>>,
    channel: Seq<char>,
    kw: Seq<char>,
    now: i64,
) -> Option<SearchResultView> {
    match row[0] {
        None => None,
        Some((_, dp)) => {
            let id = post_number(
                match dp {
                    Some(v) => v,
                    None => Seq::empty(),
                },
            );
            let text = match row[2] {
                Some((t, _)) => t,
                None => Seq::empty(),
            };
            let title = tg_title(text);
            if id.len() == 0 || !seq_contains(title, kw) || links_in(text).len() == 0 {
                None
            } else {
                Some(
                    SearchResultView {
                        message_id: id,
                        unique_id: channel + "_"@ + id,
                        channel: "tg:"@ + channel,
                        channel_score: TG_CHANNEL_SCORE,
                        datetime: match row[1] {
                            Some((_, Some(v))) => match spec_rfc3339_ms(v) {
                                Some(ms) => ms,
                                None => now,
                            },
                            _ => now,
                        },
                        title: title,
                        content: text,
                        links: links_in(text),
                        tags: Seq::empty(),
                        images: Seq::empty(),
                    },
                )
            }
        },
    }
}

/// The results of the messages read from a channel page, in order.
pub open spec fn tg_rows_results(
    rows: Seq<Seq<Option<NodeReadView>>>,
    channel: Seq<char>,
    kw: Seq<char>,
    now: i64,
) -> Seq<SearchResultView>
    decreases rows.len(),
{
    if rows.len() == 0 {
        Seq::empty()
    } else {
        let prev = tg_rows_results(rows.drop_last(), channel, kw, now);
        match tg_result_of(rows.last(), channel, kw, now) {
            Some(r) => prev.push(r),
            None => prev,
        }
    }
}

/// The results of a channel's search page (messages in
/// `.tgme_widget_message_wrap` elements).
pub open spec fn tg_page_results(html: Seq<char>, channel: Seq<char>, kw: Seq<char>, now: i64) -> Seq<
    SearchResultView,
> {
    tg_rows_results(page_rows(html, ".tgme_widget_message_wrap"@, tg_fields()), channel, kw, now)
}

/// Every result read from a channel page holds the keyword in its title,
/// has a message number and at least one share link, is identified as
/// `<channel>_<number>`, and comes from the channel `tg:<channel>` with the
/// channel score.
pub proof fn law_tg_results_match_keyword(
    rows: Seq<Seq<Option<NodeReadView>>>,
    channel: Seq<char>,
    kw: Seq<char>,
    now: i64,
)
    ensures
        forall|i: int|
            0 <= i < tg_rows_results(rows, channel, kw, now).len() ==> {
                let r = #[trigger] tg_rows_results(rows, channel, kw, now)[i];
                &&& seq_contains(r.title, kw)
                &&& r.message_id.len() > 0
                &&& r.links.len() > 0
                &&& r.unique_id == channel + "_"@ + r.message_id
                &&& r.channel == "tg:"@ + channel
                &&& r.channel_score == TG_CHANNEL_SCORE
            },
    decreases rows.len(),
{
    if rows.len() > 0 {
        law_tg_results_match_keyword(rows.drop_last(), channel, kw, now);
        let prev = tg_rows_results(rows.drop_last(), channel, kw, now);
        match tg_result_of(rows.last(), channel, kw, now) {
            Some(x) => {
                let cur = prev.push(x);
                assert(cur[prev.len() as int] == x);
                assert forall|i: int| 0 <= i < prev.len() implies #[trigger] cur[i] == prev[i] by {}
            },
            None => {},
        }
    }
}

/// Every result of a channel's search page holds the keyword in its title
/// (see [`law_tg_results_match_keyword`]).
pub proof fn law_tg_page_titles_hold_keyword(html: Seq<char>, channel: Seq<char>, kw: Seq<char>, now: i64)
    ensures
        forall|i: int|
            0 <= i < tg_page_results(html, channel, kw, now).len() ==> seq_contains(
                (#[trigger] tg_page_results(html, channel, kw, now)[i]).title,
                kw,
            ),
{
    law_tg_results_match_keyword(
        page_rows(html, ".tgme_widget_message_wrap"@, tg_fields()),
        channel,
        kw,
        now,
    );
}

fn tg_fields_exec() -> (r: Vec<FieldPath>)
    ensures
        fields_view(r@) == tg_fields(),
{
    let r = vec![
        (vec![".tgme_widget_message".to_owned()], "data-post".to_owned()),
        (
            vec![".tgme_widget_message".to_owned(), ".tgme_widget_message_date time".to_owned()],
            "datetime".to_owned(),
        ),
        (
            vec![".tgme_widget_message".to_owned(), ".tgme_widget_message_text".to_owned()],
            "data-post".to_owned(),
        ),
    ];
    proof {
        assert(r@[0].0@.map_values(|s: String| s@) =~= seq![".tgme_widget_message"@]);
        assert(r@[1].0@.map_values(|s: String| s@) =~= seq![
            ".tgme_widget_message"@,
            ".tgme_widget_message_date time"@,
        ]);
        assert(r@[2].0@.map_values(|s: String| s@) =~= seq![
            ".tgme_widget_message"@,
            ".tgme_widget_message_text"@,
        ]);
    }
    assert(fields_view(r@) =~= tg_fields());
    r
}

fn title_of(text: &str) -> (r: String)
    ensures
        r@ == tg_title(text@),
{
    let cs = chars_of(text);
    let lines = split_chars(cs.as_slice(), '\n');
    let first = trim_chars(lines[0].as_slice());
    if first.len() > 48 {
        let mut t: Vec<char> = Vec::new();
        let mut i: usize = 0;
        while i < 48
            invariant
                i <= 48 < first@.len(),
                t@ == first@.take(i as int),
            decreases 48 - i,
        {
            t.push(first[i]);
            i = i + 1;
            assert(t@ =~= first@.take(i as int));
        }
        let mut r = string_of(t.as_slice());
        r.append("...");
        r
    } else {
        string_of(first.as_slice())
    }
}

fn post_number_of(data_post: &str) -> (r: String)
    ensures
        r@ == post_number(data_post@),
{
    let cs = chars_of(data_post);
    let ps = split_chars(cs.as_slice(), '/');
    if ps.len() > 1 {
        string_of(ps[1].as_slice())
    } else {
        String::new()
    }
}

/// The results found on channel `channel`'s search page for `keyword` at
/// time `now` (see [`tg_page_results`]).
pub fn parse_tg_results(html: &str, channel: &str, keyword: &str, now: i64) -> (r: Vec<SearchResult>)
    ensures
        results_view(r@) == tg_page_results(html@, channel@, keyword@, now),
{
    let fields = tg_fields_exec();
    assert(fields_view(fields@).len() == fields@.len());
    let rows = read_page(html, ".tgme_widget_message_wrap", &fields);
    let ghost rv = rows_view(rows@);
    let mut out: Vec<SearchResult> = Vec::new();
    let mut i: usize = 0;
    while i < rows.len()
        invariant
            i <= rows@.len(),
            fields@.len() == 3,
            forall|j: int| 0 <= j < rows@.len() ==> (#[trigger] rows@[j])@.len() == fields@.len(),
            rv == rows_view(rows@),
            results_view(out@) == tg_rows_results(rv.take(i as int), channel@, keyword@, now),
        decreases rows@.len() - i,
    {
        proof {
            assert(rv.take(i + 1).drop_last() =~= rv.take(i as int));
            assert(rv[i as int].len() == 3);
        }
        let row = &rows[i];
        let ghost before = results_view(out@);
        match &row[0] {
            None => {},
            Some((_, dp)) => {
                proof {
                    reveal_strlit("");
                }
                let id = match dp {
                    Some(v) => post_number_of(v.as_str()),
                    None => post_number_of(""),
                };
                let text = match &row[2] {
                    Some((t, _)) => t.clone(),
                    None => String::new(),
                };
                let title = title_of(text.as_str());
                if !id.as_str().is_empty() && str_contains(title.as_str(), keyword) {
                    let links = extract_links(text.as_str());
                    if links.len() > 0 {
                        let dt: i64 = match &row[1] {
                            Some((_, Some(v))) => match parse_rfc3339_ms(v.as_str()) {
                                Some(ms) => ms,
                                None => now,
                            },
                            _ => now,
                        };
                        let mut uid = String::from_str(channel);
                        uid.append("_");
                        uid.append(id.as_str());
                        let r = SearchResult {
                            message_id: id,
                            unique_id: uid,
                            channel: concat2("tg:", channel),
                            channel_score: TG_CHANNEL_SCORE,
                            datetime: dt,
                            title,
                            content: text,
                            links,
                            tags: Vec::new(),
                            images: Vec::new(),
                        };
                        proof {
                            assert(r@.tags =~= Seq::<Seq<char>>::empty());
                            assert(r@.images =~= Seq::<Seq<char>>::empty());
                        }
                        out.push(r);
                        assert(results_view(out@) =~= before.push(r@));
                    }
                }
            },
        }
        i = i + 1;
    }
    assert(rv.take(rv.len() as int) =~= rv);
    out
}

// ---------------------------------------------------------------------
// Cache keys
// ---------------------------------------------------------------------

/// The source kind of a request, with the empty string meaning `all`.
pub open spec fn effective_source(req_source: Seq<char>) -> Seq<char> {
    if req_source.len() == 0 {
        "all"@
    } else {
        req_source
    }
}

/// The cache key of a request: `kw=<keyword>|src=<source>`.
pub open spec fn cache_key_of(keyword: Seq<char>, source: Seq<char>) -> Seq<char> {
    "kw="@ + keyword + "|src="@ + effective_source(source)
}

/// The cache key of a request (see [`cache_key_of`]); only the keyword and
/// the source kind take part.
pub fn search_cache_key(req: &SearchRequest) -> (k: String)
    ensures
        k@ == cache_key_of(req.keyword@, req.source_type@),
{
    let src: &str = if req.source_type.as_str().is_empty() {
        "all"
    } else {
        req.source_type.as_str()
    };
    let a = concat2("kw=", req.keyword.as_str());
    let b = concat2(a.as_str(), "|src=");
    concat2(b.as_str(), src)
}

// ---------------------------------------------------------------------
// The search service and its result cache
// ---------------------------------------------------------------------

/// Whether a request asks for Telegram results and for plugin results:
/// `tg` and `plugin` select one source, anything else (empty included) both.
pub open spec fn sources_of(source: Seq<char>) -> (bool, bool) {
    let s = effective_source(source);
    (s == "all"@ || s == "tg"@, s == "all"@ || s == "plugin"@)
}

/// Whether a request asks for Telegram results and for plugin results.
pub fn search_sources(req: &SearchRequest) -> (r: (bool, bool))
    ensures
        r == sources_of(req.source_type@),
{
    let s: &str = if req.source_type.as_str().is_empty() {
        "all"
    } else {
        req.source_type.as_str()
    };
    let all = crate::text::str_eq(s, "all");
    let tg = crate::text::str_eq(s, "tg");
    let plugin = crate::text::str_eq(s, "plugin");
    (all || tg, all || plugin)
}

/// One cached search answer.
#[derive(Debug)]
pub struct CacheEntry {
    pub key: String,
    pub response: SearchResponse,
    pub expires_at: i64,
}

/// Mathematical view of a [`CacheEntry`].
pub struct CacheEntryView {
    pub key: Seq<char>,
    pub response: SearchResponseView,
    pub expires_at: i64,
}

impl View for CacheEntry {
    type V = CacheEntryView;

    open spec fn view(&self) -> CacheEntryView {
        CacheEntryView { key: self.key@, response: self.response@, expires_at: self.expires_at }
    }
}

/// View of a sequence of cache entries.
pub open spec fn entries_view(es: Seq<CacheEntry>) -> Seq<CacheEntryView> {
    es.map_values(|e: CacheEntry| e@)
}

/// No two entries share a key.
pub open spec fn keys_distinct(es: Seq<CacheEntryView>) -> bool {
    forall|i: int, j: int| 0 <= i < j < es.len() ==> (#[trigger] es[i]).key != (#[trigger] es[j]).key
}

/// The entry stored under `k`, if any.
pub open spec fn entry_for(es: Seq<CacheEntryView>, k: Seq<char>) -> Option<CacheEntryView>
    decreases es.len(),
{
    if es.len() == 0 {
        None
    } else if es.last().key == k {
        Some(es.last())
    } else {
        entry_for(es.drop_last(), k)
    }
}

/// A response as served from the cache: the stored one, marked as a hit.
pub open spec fn as_hit(v: SearchResponseView) -> SearchResponseView {
    SearchResponseView { cache_hit: true, ..v }
}

/// What a cache lookup of `k` at `now` gives: the stored response, marked as
/// a hit, while its entry has not expired.
pub open spec fn cache_hit_of(es: Seq<CacheEntryView>, k: Seq<char>, now: i64) -> Option<
    SearchResponseView,
> {
    match entry_for(es, k) {
        Some(e) => if e.expires_at > now {
            Some(as_hit(e.response))
        } else {
            None
        },
        None => None,
    }
}

proof fn lemma_entry_for(es: Seq<CacheEntryView>, k: Seq<char>)
    requires
        keys_distinct(es),
    ensures
        entry_for(es, k) matches Some(e) ==> es.contains(e) && e.key == k,
        entry_for(es, k) is None ==> forall|i: int| 0 <= i < es.len() ==> (#[trigger] es[i]).key
            != k,
        forall|i: int| 0 <= i < es.len() && (#[trigger] es[i]).key == k ==> entry_for(es, k)
            == Some(es[i]),
    decreases es.len(),
{
    if es.len() > 0 {
        let d = es.drop_last();
        assert(keys_distinct(d));
        lemma_entry_for(d, k);
        if es.last().key == k {
            assert(es.contains(es.last()));
            assert forall|i: int| 0 <= i < es.len() && (#[trigger] es[i]).key == k implies entry_for(
                es,
                k,
            ) == Some(es[i]) by {
                if i < es.len() - 1 {
                    assert(es[i].key != es[es.len() - 1].key);
                }
            }
        } else {
            if let Some(e) = entry_for(d, k) {
                let i = choose|i: int| 0 <= i < d.len() && d[i] == e;
                assert(es[i] == e);
            }
            assert forall|i: int| 0 <= i < es.len() && (#[trigger] es[i]).key == k implies entry_for(
                es,
                k,
            ) == Some(es[i]) by {
                assert(d[i] == es[i]);
            }
        }
    }
}

/// The entries that have not expired at `now`, in order.
pub open spec fn live_entries(es: Seq<CacheEntryView>, now: i64) -> Seq<CacheEntryView>
    decreases es.len(),
{
    if es.len() == 0 {
        es
    } else if es.last().expires_at > now {
        live_entries(es.drop_last(), now).push(es.last())
    } else {
        live_entries(es.drop_last(), now)
    }
}

/// Elements `a` and `b` of `f` occur, in that order, at two positions of `s`.
pub open spec fn pair_in_order(f: Seq<CacheEntryView>, s: Seq<CacheEntryView>, a: int, b: int) -> bool {
    exists|i: int, j: int| 0 <= i < j < s.len() && s[i] == f[a] && s[j] == f[b]
}

/// Every two elements of `f` occur in the same order in `s`.
pub open spec fn in_order_within(f: Seq<CacheEntryView>, s: Seq<CacheEntryView>) -> bool {
    forall|a: int, b: int| 0 <= a < b < f.len() ==> #[trigger] pair_in_order(f, s, a, b)
}

/// Positions of the live entries come, in order, from positions of the
/// stored entries; and an entry is live iff it is stored and
/// has not expired.
proof fn lemma_live_entries(s: Seq<CacheEntryView>, now: i64)
    ensures
        live_entries(s, now).len() <= s.len(),
        in_order_within(live_entries(s, now), s),
        forall|e: CacheEntryView|
            #[trigger] live_entries(s, now).contains(e) <==> s.contains(e) && e.expires_at > now,
    decreases s.len(),
{
    if s.len() > 0 {
        let d = s.drop_last();
        let fd = live_entries(d, now);
        let f = live_entries(s, now);
        lemma_live_entries(d, now);
        if s.last().expires_at > now {
            assert(f =~= fd.push(s.last()));
        } else {
            assert(f =~= fd);
        }
        assert forall|a: int, b: int| 0 <= a < b < f.len() implies #[trigger] pair_in_order(f, s, a, b) by {
            if b < fd.len() {
                assert(f[a] == fd[a] && f[b] == fd[b]);
                assert(pair_in_order(fd, d, a, b));
                let (i, j) = choose|i: int, j: int| 0 <= i < j < d.len() && d[i] == fd[a] && d[j] == fd[b];
                assert(s[i] == d[i] && s[j] == d[j]);
            } else {
                assert(f[a] == fd[a]);
                assert(fd.contains(fd[a]));
                let i = choose|i: int| 0 <= i < d.len() && d[i] == fd[a];
                assert(s[i] == d[i]);
                assert(s[s.len() - 1] == f[b]);
            }
        }
        assert forall|e: CacheEntryView| #[trigger] f.contains(e) <==> s.contains(e) && e.expires_at
            > now by {
            if f.contains(e) {
                let q = choose|q: int| 0 <= q < f.len() && f[q] == e;
                if q < fd.len() {
                    assert(fd[q] == e);
                    assert(fd.contains(e));
                    let w = choose|w: int| 0 <= w < d.len() && d[w] == e;
                    assert(s[w] == e);
                } else {
                    assert(s[s.len() - 1] == e);
                }
            }
            if s.contains(e) && e.expires_at > now {
                let w = choose|w: int| 0 <= w < s.len() && s[w] == e;
                if w < s.len() - 1 {
                    assert(d[w] == e);
                    assert(d.contains(e));
                    assert(fd.contains(e));
                    let q = choose|q: int| 0 <= q < fd.len() && fd[q] == e;
                    assert(f[q] == e);
                } else {
                    assert(f[f.len() - 1] == e);
                }
            }
        }
    }
}

/// View of an optional response.
pub open spec fn opt_response_view(o: Option<SearchResponse>) -> Option<SearchResponseView> {
    match o {
        Some(r) => Some(r@),
        None => None,
    }
}

/// The answer to a fresh search at `now`: the Telegram results followed by
/// the plugin results, merged, then ordered by score.
pub open spec fn answer_of(tg: Seq<SearchResult>, plugins: Seq<SearchResult>, now: i64) -> SearchResponseView {
    let rs = sorted_by_score(merged(tg + plugins), now);
    SearchResponseView {
        total: rs.len() as usize,
        cache_hit: false,
        results: results_view(rs),
        merged_by_type: None,
    }
}

/// A cached answer is served, marked as a hit, as long as its entry has not
/// expired: a read after a write within the lifetime gives back what was
/// written.
pub proof fn law_cache_read_after_write(
    es: Seq<CacheEntryView>,
    k: Seq<char>,
    v: SearchResponseView,
    expires_at: i64,
    t: i64,
)
    requires
        entry_for(es, k) == Some(CacheEntryView { key: k, response: v, expires_at }),
        t < expires_at,
    ensures
        cache_hit_of(es, k, t) == Some(as_hit(v)),
{
}

/// A fresh answer cached by a search is served again, as a hit, to the same
/// request until it expires: the second answer shows the same results
/// (and grouping) as the first.
pub proof fn law_search_read_after_complete(
    es: Seq<CacheEntryView>,
    req: SearchRequest,
    tg: Seq<SearchResult>,
    plugins: Seq<SearchResult>,
    now: i64,
    expires_at: i64,
    t: i64,
)
    requires
        entry_for(es, cache_key_of(req.keyword@, req.source_type@)) == Some(
            CacheEntryView {
                key: cache_key_of(req.keyword@, req.source_type@),
                response: answer_of(tg, plugins, now),
                expires_at,
            },
        ),
        t < expires_at,
    ensures
        cache_hit_of(es, cache_key_of(req.keyword@, req.source_type@), t) matches Some(v) && shaped(
            v,
            req,
        ) == (SearchResponseView { cache_hit: true, ..shaped(answer_of(tg, plugins, now), req) }),
{
}

/// An expired answer is never served.
pub proof fn law_cache_no_stale_hit(es: Seq<CacheEntryView>, k: Seq<char>, t: i64)
    ensures
        cache_hit_of(es, k, t) is Some ==> (entry_for(es, k) matches Some(e) && e.expires_at > t),
{
}

/// The search service: its settings and the cache of recent answers.
///
/// Answers are cached under [`cache_key_of`] for `cache_ttl_ms`
/// milliseconds; at most `max_cache_size` answers are kept.
#[derive(Debug)]
pub struct SearchService {
    concurrency: usize,
    cache_ttl_ms: i64,
    max_cache_size: usize,
    entries: Vec<CacheEntry>,
}

impl SearchService {
    /// Number of channel fetches that may run at once.
    pub closed spec fn spec_concurrency(&self) -> usize {
        self.concurrency
    }

    /// Lifetime of a cached answer, in milliseconds.
    pub closed spec fn spec_ttl(&self) -> i64 {
        self.cache_ttl_ms
    }

    /// Greatest number of cached answers.
    pub closed spec fn spec_max_size(&self) -> usize {
        self.max_cache_size
    }

    /// The cached answers.
    pub closed spec fn cache(&self) -> Seq<CacheEntryView> {
        entries_view(self.entries@)
    }

    /// The service's invariant: keys are distinct and the cache is within
    /// its bound; concurrency and bound are at least 1.
    pub closed spec fn wf(&self) -> bool {
        &&& keys_distinct(self.cache())
        &&& self.concurrency >= 1
        &&& self.max_cache_size >= 1
        &&& self.cache_ttl_ms >= 0
    }

    /// A service with an empty cache; concurrency and bound are raised to
    /// at least 1.
    pub fn new(concurrency: usize, cache_ttl_ms: i64, max_cache_size: usize) -> (r: SearchService)
        requires
            cache_ttl_ms >= 0,
        ensures
            r.wf(),
            r.spec_concurrency() == if concurrency >= 1 { concurrency } else { 1 },
            r.spec_ttl() == cache_ttl_ms,
            r.spec_max_size() == if max_cache_size >= 1 { max_cache_size } else { 1 },
            r.cache().len() == 0,
    {
        let r = SearchService {
            concurrency: if concurrency >= 1 { concurrency } else { 1 },
            cache_ttl_ms,
            max_cache_size: if max_cache_size >= 1 { max_cache_size } else { 1 },
            entries: Vec::new(),
        };
        assert(r.cache() =~= Seq::<CacheEntryView>::empty());
        r
    }

    /// Number of channel fetches that may run at once.
    pub fn concurrency(&self) -> (r: usize)
        ensures
            r == self.spec_concurrency(),
    {
        self.concurrency
    }

    /// Number of cached answers.
    pub fn cache_len(&self) -> (r: usize)
        ensures
            r == self.cache().len(),
    {
        self.entries.len()
    }

    /// Index of the entry stored under `k`.
    fn position_of(&self, k: &[char]) -> (r: Option<usize>)
        requires
            self.wf(),
        ensures
            r matches Some(i) ==> i < self.cache().len() && self.cache()[i as int].key == k@,
            r is None ==> forall|i: int| 0 <= i < self.cache().len() ==> (#[trigger] self.cache()[i]).key != k@,
    {
        let mut i: usize = 0;
        while i < self.entries.len()
            invariant
                i <= self.entries@.len(),
                self.cache().len() == self.entries@.len(),
                forall|j: int| 0 <= j < i ==> (#[trigger] self.cache()[j]).key != k@,
            decreases self.entries@.len() - i,
        {
            let kv = chars_of(self.entries[i].key.as_str());
            if chars_eq(kv.as_slice(), k) {
                return Some(i);
            }
            i = i + 1;
        }
        None
    }

    /// Whether an answer is cached under `key`.
    pub fn contains_key(&self, key: &str) -> (r: bool)
        requires
            self.wf(),
        ensures
            r == (entry_for(self.cache(), key@) is Some),
    {
        let k = chars_of(key);
        let p = self.position_of(k.as_slice());
        proof {
            lemma_entry_for(self.cache(), key@);
        }
        p.is_some()
    }

    /// Stores `response` under `key` until `expires_at`, replacing any
    /// answer stored under that key.
    pub fn put_entry(&mut self, key: String, response: SearchResponse, expires_at: i64)
        requires
            old(self).wf(),
        ensures
            final(self).wf(),
            final(self).spec_concurrency() == old(self).spec_concurrency(),
            final(self).spec_ttl() == old(self).spec_ttl(),
            final(self).spec_max_size() == old(self).spec_max_size(),
            entry_for(final(self).cache(), key@) == Some(
                CacheEntryView { key: key@, response: response@, expires_at },
            ),
            forall|e: CacheEntryView| #[trigger] final(self).cache().contains(e) && e.key != key@
                ==> old(self).cache().contains(e),
            forall|e: CacheEntryView| #[trigger] old(self).cache().contains(e) && e.key != key@
                ==> final(self).cache().contains(e),
            final(self).cache().len() == old(self).cache().len() + (if entry_for(
                old(self).cache(),
                key@,
            ) is Some {
                0int
            } else {
                1int
            }),
    {
        proof {
            lemma_entry_for(old(self).cache(), key@);
        }
        let k = chars_of(key.as_str());
        let ghost new_e = CacheEntryView { key: key@, response: response@, expires_at };
        match self.position_of(k.as_slice()) {
            Some(i) => {
                let ghost before = self.cache();
                self.entries.set(i, CacheEntry { key, response, expires_at });
                proof {
                    assert(self.cache() =~= before.update(i as int, new_e));
                    assert forall|a: int, b: int| 0 <= a < b < self.cache().len() implies (
                    #[trigger] self.cache()[a]).key != (#[trigger] self.cache()[b]).key by {
                        assert(before[a].key != before[b].key);
                    }
                    lemma_entry_for(self.cache(), key@);
                    assert(self.cache()[i as int] == new_e);
                    assert forall|e: CacheEntryView| #[trigger] self.cache().contains(e) && e.key
                        != key@ implies before.contains(e) by {
                        let j = choose|j: int| 0 <= j < self.cache().len() && self.cache()[j] == e;
                        assert(j != i);
                        assert(before[j] == e);
                    }
                    assert forall|e: CacheEntryView| #[trigger] before.contains(e) && e.key != key@
                        implies self.cache().contains(e) by {
                        let j = choose|j: int| 0 <= j < before.len() && before[j] == e;
                        assert(j != i);
                        assert(self.cache()[j] == e);
                    }
                }
            },
            None => {
                let ghost before = self.cache();
                self.entries.push(CacheEntry { key, response, expires_at });
                proof {
                    assert(self.cache() =~= before.push(new_e));
                    assert forall|a: int, b: int| 0 <= a < b < self.cache().len() implies (
                    #[trigger] self.cache()[a]).key != (#[trigger] self.cache()[b]).key by {
                        if b == self.cache().len() - 1 {
                            assert(before.contains(self.cache()[a]));
                        }
                    }
                    lemma_entry_for(self.cache(), key@);
                    assert(self.cache()[self.cache().len() - 1] == new_e);
                    assert forall|e: CacheEntryView| #[trigger] self.cache().contains(e) && e.key
                        != key@ implies old(self).cache().contains(e) by {
                        let j = choose|j: int| 0 <= j < self.cache().len() && self.cache()[j] == e;
                        assert(before[j] == e);
                        assert(before.contains(e));
                    }
                    assert forall|e: CacheEntryView| #[trigger] before.contains(e) && e.key != key@
                        implies self.cache().contains(e) by {
                        let j = choose|j: int| 0 <= j < before.len() && before[j] == e;
                        assert(self.cache()[j] == e);
                    }
                }
            },
        }
    }

    /// Caches `response` under `key` at `now`: expired entries are dropped;
    /// when the cache is then full, the entries that expire first are
    /// dropped until there is room; the answer is stored (replacing any
    /// answer under that key) to expire `spec_ttl()` milliseconds later.
    pub fn store(&mut self, key: String, response: SearchResponse, now: i64)
        requires
            old(self).wf(),
            now + old(self).spec_ttl() <= i64::MAX,
        ensures
            final(self).wf(),
            final(self).spec_concurrency() == old(self).spec_concurrency(),
            final(self).spec_ttl() == old(self).spec_ttl(),
            final(self).spec_max_size() == old(self).spec_max_size(),
            entry_for(final(self).cache(), key@) == Some(
                CacheEntryView {
                    key: key@,
                    response: response@,
                    expires_at: (now + old(self).spec_ttl()) as i64,
                },
            ),
            final(self).cache().len() <= final(self).spec_max_size(),
            forall|e: CacheEntryView| #[trigger] final(self).cache().contains(e) && e.key != key@
                ==> old(self).cache().contains(e) && e.expires_at > now,
            forall|e: CacheEntryView, f: CacheEntryView|
                #[trigger] old(self).cache().contains(e) && e.expires_at > now && e.key != key@
                    && !final(self).cache().contains(e) && #[trigger] final(self).cache().contains(f)
                    && f.key != key@ ==> e.expires_at <= f.expires_at,
            live_entries(old(self).cache(), now).len() < old(self).spec_max_size() ==> forall|
                e: CacheEntryView,
            | #[trigger] old(self).cache().contains(e) && e.expires_at > now && e.key != key@
                ==> final(self).cache().contains(e),
            live_entries(old(self).cache(), now).len() >= old(self).spec_max_size()
                ==> final(self).cache().len() >= old(self).spec_max_size() - 1,
    {
        let ghost orig = self.cache();
        self.retain_unexpired(now);
        proof {
            lemma_live_entries(orig, now);
        }
        let ghost live = self.cache();
        if self.entries.len() >= self.max_cache_size {
            self.evict_to(self.max_cache_size - 1);
        }
        let ghost kept = self.cache();
        let expires_at = now + self.cache_ttl_ms;
        self.put_entry(key, response, expires_at);
        proof {
            assert forall|e: CacheEntryView| #[trigger] self.cache().contains(e) && e.key != key@
                implies orig.contains(e) && e.expires_at > now by {
                assert(kept.contains(e));
                assert(live.contains(e));
            }
            assert forall|e: CacheEntryView, f: CacheEntryView|
                #[trigger] orig.contains(e) && e.expires_at > now && e.key != key@
                    && !self.cache().contains(e) && #[trigger] self.cache().contains(f)
                    && f.key != key@ implies e.expires_at <= f.expires_at by {
                assert(live.contains(e));
                assert(kept.contains(f));
                assert(!kept.contains(e));
            }
            if live.len() < self.max_cache_size {
                assert(kept == live);
                assert forall|e: CacheEntryView| #[trigger] orig.contains(e) && e.expires_at > now
                    && e.key != key@ implies self.cache().contains(e) by {
                    assert(live.contains(e));
                    assert(kept.contains(e));
                }
            }
        }
    }

    /// The cached answer for `req` at `now`, unless the request forces a
    /// refresh. An expired entry found on the way is dropped.
    pub fn cached_response(&mut self, req: &SearchRequest, now: i64) -> (r: Option<SearchResponse>)
        requires
            old(self).wf(),
        ensures
            final(self).wf(),
            final(self).spec_concurrency() == old(self).spec_concurrency(),
            final(self).spec_ttl() == old(self).spec_ttl(),
            final(self).spec_max_size() == old(self).spec_max_size(),
            req.force_refresh ==> r is None && final(self).cache() == old(self).cache(),
            !req.force_refresh ==> opt_response_view(r) == match cache_hit_of(
                old(self).cache(),
                cache_key_of(req.keyword@, req.source_type@),
                now,
            ) {
                Some(v) => Some(shaped(v, *req)),
                None => None,
            },
            !req.force_refresh ==> match entry_for(
                old(self).cache(),
                cache_key_of(req.keyword@, req.source_type@),
            ) {
                Some(e) => if e.expires_at > now {
                    final(self).cache() == old(self).cache()
                } else {
                    entry_for(final(self).cache(), e.key) is None && forall|x: CacheEntryView|
                        #[trigger] final(self).cache().contains(x) <==> old(self).cache().contains(
                            x,
                        ) && x.key != e.key
                },
                None => final(self).cache() == old(self).cache(),
            },
    {
        if req.force_refresh {
            return None;
        }
        let key = search_cache_key(req);
        let k = chars_of(key.as_str());
        let ghost before = self.cache();
        proof {
            lemma_entry_for(before, key@);
        }
        match self.position_of(k.as_slice()) {
            Some(i) => {
                if self.entries[i].expires_at > now {
                    let mut resp = self.entries[i].response.duplicate();
                    resp.cache_hit = true;
                    assert(resp@ == as_hit(before[i as int].response));
                    Some(shape_response(resp, req))
                } else {
                    let _gone = self.entries.remove(i);
                    proof {
                        assert(self.cache() =~= before.remove(i as int));
                        assert forall|a: int, b: int| 0 <= a < b < self.cache().len() implies (
                        #[trigger] self.cache()[a]).key != (#[trigger] self.cache()[b]).key by {
                            let a0 = if a < i { a } else { a + 1 };
                            let b0 = if b < i { b } else { b + 1 };
                            assert(self.cache()[a] == before[a0]);
                            assert(self.cache()[b] == before[b0]);
                        }
                        assert forall|x: CacheEntryView| #[trigger] self.cache().contains(x) <==> before.contains(
                            x,
                        ) && x.key != key@ by {
                            if self.cache().contains(x) {
                                let q = choose|q: int| 0 <= q < self.cache().len() && self.cache()[q] == x;
                                let q0 = if q < i { q } else { q + 1 };
                                assert(before[q0] == x);
                                assert(q0 != i);
                            }
                            if before.contains(x) && x.key != key@ {
                                let q = choose|q: int| 0 <= q < before.len() && before[q] == x;
                                assert(q != i);
                                let q1 = if q < i { q } else { q - 1 };
                                assert(self.cache()[q1] == x);
                            }
                        }
                        lemma_entry_for(self.cache(), key@);
                    }
                    None
                }
            },
            None => None,
        }
    }

    /// Finishes a search at `now`: the Telegram and plugin results are
    /// merged and ordered, the answer is cached under the request's key
    /// (see [`SearchService::store`]), and returned as shown for the
    /// request (see [`shaped`]).
    pub fn complete(
        &mut self,
        req: &SearchRequest,
        tg_results: Vec<SearchResult>,
        plugin_results: Vec<SearchResult>,
        now: i64,
    ) -> (r: SearchResponse)
        requires
            old(self).wf(),
            now + old(self).spec_ttl() <= i64::MAX,
        ensures
            final(self).wf(),
            final(self).spec_concurrency() == old(self).spec_concurrency(),
            final(self).spec_ttl() == old(self).spec_ttl(),
            final(self).spec_max_size() == old(self).spec_max_size(),
            r@ == shaped(answer_of(tg_results@, plugin_results@, now), *req),
            entry_for(final(self).cache(), cache_key_of(req.keyword@, req.source_type@)) == Some(
                CacheEntryView {
                    key: cache_key_of(req.keyword@, req.source_type@),
                    response: answer_of(tg_results@, plugin_results@, now),
                    expires_at: (now + old(self).spec_ttl()) as i64,
                },
            ),
            final(self).cache().len() <= final(self).spec_max_size(),
            forall|e: CacheEntryView| #[trigger] final(self).cache().contains(e) && e.key
                != cache_key_of(req.keyword@, req.source_type@) ==> old(self).cache().contains(e)
                && e.expires_at > now,
            forall|e: CacheEntryView, f: CacheEntryView|
                #[trigger] old(self).cache().contains(e) && e.expires_at > now && e.key
                    != cache_key_of(req.keyword@, req.source_type@) && !final(self).cache().contains(e)
                    && #[trigger] final(self).cache().contains(f) && f.key != cache_key_of(
                    req.keyword@,
                    req.source_type@,
                ) ==> e.expires_at <= f.expires_at,
            live_entries(old(self).cache(), now).len() < old(self).spec_max_size() ==> forall|
                e: CacheEntryView,
            | #[trigger] old(self).cache().contains(e) && e.expires_at > now && e.key != cache_key_of(
                req.keyword@,
                req.source_type@,
            ) ==> final(self).cache().contains(e),
            live_entries(old(self).cache(), now).len() >= old(self).spec_max_size()
                ==> final(self).cache().len() >= old(self).spec_max_size() - 1,
    {
        let mut results = merge_search_results(tg_results, plugin_results);
        sort_results_at(&mut results, now);
        let total = results.len();
        let response = SearchResponse { total, cache_hit: false, results, merged_by_type: None };
        let key = search_cache_key(req);
        let copy = response.duplicate();
        self.store(key, copy, now);
        shape_response(response, req)
    }

    /// Drops the entries that have expired at `now`.
    fn retain_unexpired(&mut self, now: i64)
        requires
            old(self).wf(),
        ensures
            final(self).wf(),
            final(self).spec_concurrency() == old(self).spec_concurrency(),
            final(self).spec_ttl() == old(self).spec_ttl(),
            final(self).spec_max_size() == old(self).spec_max_size(),
            final(self).cache() == live_entries(old(self).cache(), now),
    {
        let ghost orig = self.cache();
        let mut input: Vec<CacheEntry> = Vec::new();
        std::mem::swap(&mut input, &mut self.entries);
        let n = input.len();
        let mut kept: Vec<CacheEntry> = Vec::new();
        let mut taken: usize = 0;
        while input.len() > 0
            invariant
                n == orig.len(),
                taken + input@.len() == orig.len(),
                entries_view(input@) == orig.skip(taken as int),
                entries_view(kept@) == live_entries(orig.take(taken as int), now),
            decreases input@.len(),
        {
            let ghost before_in = entries_view(input@);
            let x = input.remove(0);
            proof {
                assert(before_in[0] == x@);
                assert(entries_view(input@) =~= before_in.skip(1));
                assert(orig.skip(taken + 1) =~= orig.skip(taken as int).skip(1));
                assert(orig.take(taken + 1).drop_last() =~= orig.take(taken as int));
                assert(orig.take(taken + 1).last() == x@) by {
                    assert(orig.skip(taken as int)[0] == x@);
                }
            }
            if x.expires_at > now {
                kept.push(x);
            }
            taken = taken + 1;
            assert(entries_view(input@) =~= orig.skip(taken as int));
            assert(entries_view(kept@) =~= live_entries(orig.take(taken as int), now));
        }
        assert(orig.take(orig.len() as int) =~= orig);
        self.entries = kept;
        proof {
            let f = live_entries(orig, now);
            lemma_live_entries(orig, now);
            assert forall|a: int, b: int| 0 <= a < b < f.len() implies (#[trigger] f[a]).key != (
            #[trigger] f[b]).key by {
                assert(pair_in_order(f, orig, a, b));
                let (i, j) = choose|i: int, j: int| 0 <= i < j < orig.len() && orig[i] == f[a] && orig[j] == f[b];
            }
        }
    }

    /// Removes entries that expire first until at most `target` remain.
    fn evict_to(&mut self, target: usize)
        requires
            old(self).wf(),
            target < old(self).spec_max_size(),
        ensures
            final(self).cache().len() <= target,
            final(self).cache().len() == if old(self).cache().len() <= target {
                old(self).cache().len() as int
            } else {
                target as int
            },
            keys_distinct(final(self).cache()),
            final(self).spec_concurrency() == old(self).spec_concurrency(),
            final(self).spec_ttl() == old(self).spec_ttl(),
            final(self).spec_max_size() == old(self).spec_max_size(),
            forall|e: CacheEntryView| #[trigger] final(self).cache().contains(e) ==> old(
                self,
            ).cache().contains(e),
            forall|e: CacheEntryView, f: CacheEntryView|
                #[trigger] old(self).cache().contains(e) && !final(self).cache().contains(e)
                    && #[trigger] final(self).cache().contains(f) ==> e.expires_at <= f.expires_at,
    {
        let ghost orig = self.cache();
        let ghost mut removed: Seq<CacheEntryView> = Seq::empty();
        while self.entries.len() > target
            invariant
                keys_distinct(self.cache()),
                self.cache().len() == self.entries@.len(),
                orig.len() > target ==> self.cache().len() >= target,
                self.cache().len() <= orig.len(),
                self.concurrency == old(self).concurrency,
                self.cache_ttl_ms == old(self).cache_ttl_ms,
                self.max_cache_size == old(self).max_cache_size,
                orig == old(self).cache(),
                forall|e: CacheEntryView| #[trigger] self.cache().contains(e) ==> orig.contains(e),
                forall|e: CacheEntryView| orig.contains(e) && !(#[trigger] self.cache().contains(e))
                    ==> removed.contains(e),
                forall|r: CacheEntryView, f: CacheEntryView|
                    #[trigger] removed.contains(r) && #[trigger] self.cache().contains(f)
                        ==> r.expires_at <= f.expires_at,
                (orig.len() <= target) ==> self.cache() == orig,
            decreases self.entries@.len(),
        {
            let mut m: usize = 0;
            let mut j: usize = 1;
            while j < self.entries.len()
                invariant
                    self.cache().len() == self.entries@.len(),
                    self.entries@.len() > 0,
                    m < self.entries@.len(),
                    1 <= j <= self.entries@.len(),
                    m < j,
                    forall|q: int| 0 <= q < j ==> self.cache()[m as int].expires_at <= (
                    #[trigger] self.cache()[q]).expires_at,
                decreases self.entries@.len() - j,
            {
                if self.entries[j].expires_at < self.entries[m].expires_at {
                    m = j;
                }
                j = j + 1;
            }
            let ghost before = self.cache();
            let ghost gone = before[m as int];
            let _x = self.entries.remove(m);
            let ghost prev_removed = removed;
            proof {
                assert(self.cache() =~= before.remove(m as int));
                removed = removed.push(gone);
                assert(removed.drop_last() =~= prev_removed);
                assert forall|a: int, b: int| 0 <= a < b < self.cache().len() implies (
                #[trigger] self.cache()[a]).key != (#[trigger] self.cache()[b]).key by {
                    let a0 = if a < m { a } else { a + 1 };
                    let b0 = if b < m { b } else { b + 1 };
                    assert(self.cache()[a] == before[a0]);
                    assert(self.cache()[b] == before[b0]);
                }
                assert forall|e: CacheEntryView| #[trigger] self.cache().contains(e) implies orig.contains(
                    e,
                ) by {
                    let q = choose|q: int| 0 <= q < self.cache().len() && self.cache()[q] == e;
                    let q0 = if q < m { q } else { q + 1 };
                    assert(before[q0] == e);
                    assert(before.contains(e));
                }
                assert forall|e: CacheEntryView| orig.contains(e) && !(
                #[trigger] self.cache().contains(e)) implies removed.contains(e) by {
                    if before.contains(e) {
                        let q = choose|q: int| 0 <= q < before.len() && before[q] == e;
                        if q != m {
                            let q1 = if q < m { q } else { q - 1 };
                            assert(self.cache()[q1] == e);
                        } else {
                            assert(removed.last() == e);
                        }
                    } else {
                        assert(prev_removed.contains(e));
                        let q = choose|q: int| 0 <= q < prev_removed.len() && prev_removed[q] == e;
                        assert(removed[q] == e);
                    }
                }
                assert forall|r: CacheEntryView, f: CacheEntryView|
                    #[trigger] removed.contains(r) && #[trigger] self.cache().contains(f)
                        implies r.expires_at <= f.expires_at by {
                    let q = choose|q: int| 0 <= q < self.cache().len() && self.cache()[q] == f;
                    let q0 = if q < m { q } else { q + 1 };
                    assert(before[q0] == f);
                    assert(before.contains(f));
                    let t = choose|t: int| 0 <= t < removed.len() && removed[t] == r;
                    if t < removed.len() - 1 {
                        assert(prev_removed[t] == r);
                        assert(prev_removed.contains(r));
                    } else {
                        assert(gone.expires_at <= before[q0].expires_at);
                    }
                }
            }
        }
    }
}

} // verus!
