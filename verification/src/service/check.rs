//! Link checking: normalization of share links, the quick verdict on a
//! link, and the cache of verdicts.
use vstd::prelude::*;
use crate::model::{CheckItem, CheckResponse, CheckResult, CheckResultView, opt_view};
use crate::text::{
    chars_of, chars_eq, concat2, seq_contains, spec_form_urlencode, spec_trim, str_contains, str_eq,
    str_trim, form_urlencode,
};

verus! {

broadcast use vstd::string::group_string_axioms;

// ---------------------------------------------------------------------
// Lifetimes of verdicts
// ---------------------------------------------------------------------

/// How long a verdict stays valid, in seconds: `ok` 24 h, `bad` 6 h,
/// `locked` 12 h, `unsupported` 24 h, anything else 30 min.
pub open spec fn ttl_secs_of(state: Seq<char>) -> u64 {
    if state == "ok"@ {
        86400
    } else if state == "bad"@ {
        21600
    } else if state == "locked"@ {
        43200
    } else if state == "unsupported"@ {
        86400
    } else {
        1800
    }
}

/// How long a verdict in `state` stays valid, in seconds.
pub fn ttl_for_state(state: &str) -> (r: u64)
    ensures
        r == ttl_secs_of(state@),
{
    if str_eq(state, "ok") {
        86400
    } else if str_eq(state, "bad") {
        21600
    } else if str_eq(state, "locked") {
        43200
    } else if str_eq(state, "unsupported") {
        86400
    } else {
        1800
    }
}

/// Every lifetime is between 30 minutes and 24 hours.
pub proof fn law_ttl_bounds(state: Seq<char>)
    ensures
        1800 <= ttl_secs_of(state) <= 86400,
{
}

/// Largest lifetime of a verdict, in milliseconds.
pub const MAX_TTL_MS: i64 = 86_400_000;

// ---------------------------------------------------------------------
// Normalization of share links (with the `url` crate)
// ---------------------------------------------------------------------

/// The serialization of a URL parsed by `url::Url::parse`, with its
/// fragment removed; `None` when the text does not parse.
pub uninterp spec fn spec_url_without_fragment(raw: Seq<char>) -> Option<Seq<char>>;

/// The decoded query pairs of a URL parsed by `url::Url::parse`
/// (`query_pairs`); `None` when the text does not parse.
pub uninterp spec fn spec_url_query_pairs(url: Seq<char>) -> Option<Seq<(Seq<char>, Seq<char>)>>;

/// The serialization of a URL parsed by `url::Url::parse` after its query
/// is set to `query` (`set_query`); `None` when the text does not parse.
pub uninterp spec fn spec_url_with_query(url: Seq<char>, query: Seq<char>) -> Option<Seq<char>>;

/// `url::Url::parse`, `set_fragment(None)` and serialization: the result
/// is named `spec_url_without_fragment` of `raw`.
#[verifier::external_body]
fn url_without_fragment(raw: &str) -> (r: Option<String>)
    ensures
        opt_view(r) == spec_url_without_fragment(raw@),
{
    let mut u = url::Url::parse(raw).ok()?;
    u.set_fragment(None);
    Some(u.to_string())
}

/// View of optional query pairs.
pub open spec fn opt_pairs_view(o: Option<Vec<(String, String)>>) -> Option<
    Seq<(Seq<char>, Seq<char>)>,
> {
    match o {
        Some(v) => Some(v@.map_values(|p: (String, String)| (p.0@, p.1@))),
        None => None,
    }
}

/// `url::Url::parse` and `query_pairs`, decoded into owned pairs: the
/// result is named `spec_url_query_pairs` of `url`.
#[verifier::external_body]
fn url_query_pairs(url: &str) -> (r: Option<Vec<(String, String)>>)
    ensures
        opt_pairs_view(r) == spec_url_query_pairs(url@),
{
    let u = url::Url::parse(url).ok()?;
    Some(u.query_pairs().into_owned().collect())
}

/// `url::Url::parse`, `set_query(Some(query))` and serialization: the
/// result is named `spec_url_with_query` of `url` and `query`.
#[verifier::external_body]
fn url_with_query(url: &str, query: &str) -> (r: Option<String>)
    ensures
        opt_view(r) == spec_url_with_query(url@, query@),
{
    let mut u = url::Url::parse(url).ok()?;
    u.set_query(Some(query));
    Some(u.to_string())
}

/// The drive kinds whose links carry their password as a `pwd` parameter.
pub open spec fn takes_pwd_param(disk_type: Seq<char>) -> bool {
    disk_type == "baidu"@ || disk_type == "quark"@ || disk_type == "uc"@
}

/// `k=v` pairs joined by `&`, each side form-urlencoded.
pub open spec fn encode_pairs(ps: Seq<(Seq<char>, Seq<char>)>) -> Seq<char>
    decreases ps.len(),
{
    if ps.len() == 0 {
        Seq::empty()
    } else if ps.len() == 1 {
        spec_form_urlencode(ps[0].0) + "="@ + spec_form_urlencode(ps[0].1)
    } else {
        encode_pairs(ps.drop_last()) + "&"@ + spec_form_urlencode(ps.last().0) + "="@
            + spec_form_urlencode(ps.last().1)
    }
}

/// Whether some pair has the key `pwd`.
pub open spec fn has_pwd_key(ps: Seq<(Seq<char>, Seq<char>)>) -> bool {
    exists|i: int| 0 <= i < ps.len() && ps[i].0 == "pwd"@
}

/// A URL (already without fragment) with `pwd=<password>` added when the
/// drive kind takes one, a password is given, and the query has no `pwd`.
pub open spec fn with_pwd(disk_type: Seq<char>, u: Seq<char>, password: Seq<char>) -> Seq<char> {
    if password.len() > 0 && takes_pwd_param(disk_type) {
        match spec_url_query_pairs(u) {
            Some(qp) => if has_pwd_key(qp) {
                u
            } else {
                match spec_url_with_query(u, encode_pairs(qp.push(("pwd"@, password)))) {
                    Some(u2) => u2,
                    None => u,
                }
            },
            None => u,
        }
    } else {
        u
    }
}

/// The normalized form of a share link: the trimmed link; when it parses
/// as a URL, without fragment and with the password added (see
/// [`with_pwd`]); the empty string for an empty link.
pub open spec fn normalized_link_of(disk_type: Seq<char>, raw: Seq<char>, password: Seq<char>) -> Seq<
    char,
> {
    let t = spec_trim(raw);
    if t.len() == 0 {
        Seq::empty()
    } else {
        match spec_url_without_fragment(t) {
            Some(u) => with_pwd(disk_type, u, password),
            None => t,
        }
    }
}

/// Exactly the drive kinds baidu, quark and uc take their password as a
/// `pwd` parameter: for them, with a password given, a link that parses
/// and whose query has no `pwd` gets `pwd=<password>` appended to its
/// query pairs; for any other kind, or without a password, the normalized
/// link is the trimmed link without its fragment, whatever the password.
pub proof fn law_pwd_added_for_baidu_quark_uc(
    disk_type: Seq<char>,
    raw: Seq<char>,
    password: Seq<char>,
    other: Seq<char>,
)
    ensures
        takes_pwd_param(disk_type) <==> (disk_type == "baidu"@ || disk_type == "quark"@
            || disk_type == "uc"@),
        ({
            let t = spec_trim(raw);
            (disk_type == "baidu"@ || disk_type == "quark"@ || disk_type == "uc"@) && password.len() > 0
                && t.len() > 0 ==> match spec_url_without_fragment(t) {
                Some(u) => match spec_url_query_pairs(u) {
                    Some(qp) => !has_pwd_key(qp) ==> normalized_link_of(disk_type, raw, password)
                        == match spec_url_with_query(u, encode_pairs(qp + seq![("pwd"@, password)])) {
                        Some(u2) => u2,
                        None => u,
                    },
                    None => normalized_link_of(disk_type, raw, password) == u,
                },
                None => normalized_link_of(disk_type, raw, password) == t,
            }
        }),
        !(disk_type == "baidu"@ || disk_type == "quark"@ || disk_type == "uc"@)
            ==> normalized_link_of(disk_type, raw, password) == normalized_link_of(disk_type, raw, other)
            && (spec_trim(raw).len() > 0 ==> normalized_link_of(disk_type, raw, password) == match spec_url_without_fragment(
            spec_trim(raw),
        ) {
            Some(u) => u,
            None => spec_trim(raw),
        }),
{
    let t = spec_trim(raw);
    match spec_url_without_fragment(t) {
        Some(u) => match spec_url_query_pairs(u) {
            Some(qp) => {
                assert(qp.push(("pwd"@, password)) =~= qp + seq![("pwd"@, password)]);
            },
            None => {},
        },
        None => {},
    }
}

/// Joins query pairs as `k=v&k=v`, form-urlencoding each side.
fn encode_query(ps: &Vec<(String, String)>) -> (r: String)
    ensures
        r@ == encode_pairs(ps@.map_values(|p: (String, String)| (p.0@, p.1@))),
{
    let ghost pv = ps@.map_values(|p: (String, String)| (p.0@, p.1@));
    let mut r = String::new();
    let mut i: usize = 0;
    while i < ps.len()
        invariant
            i <= ps@.len(),
            pv == ps@.map_values(|p: (String, String)| (p.0@, p.1@)),
            r@ == encode_pairs(pv.take(i as int)),
        decreases ps@.len() - i,
    {
        let k = form_urlencode(ps[i].0.as_str());
        let v = form_urlencode(ps[i].1.as_str());
        let mut piece = concat2(k.as_str(), "=");
        piece = concat2(piece.as_str(), v.as_str());
        proof {
            assert(pv.take(i + 1).drop_last() =~= pv.take(i as int));
            assert(pv.take(i + 1).last() == pv[i as int]);
        }
        if i == 0 {
            r = piece;
            assert(pv.take(1).len() == 1);
        } else {
            r = concat2(r.as_str(), "&");
            r = concat2(r.as_str(), piece.as_str());
            assert(r@ =~= encode_pairs(pv.take(i as int)) + "&"@ + spec_form_urlencode(pv[i as int].0)
                + "="@ + spec_form_urlencode(pv[i as int].1));
        }
        i = i + 1;
    }
    assert(pv.take(ps@.len() as int) =~= pv);
    r
}

/// Normalizes a share link (see [`normalized_link_of`]).
pub fn normalize_share_link(disk_type: &str, raw: &str, password: &str) -> (r: String)
    ensures
        r@ == normalized_link_of(disk_type@, raw@, password@),
{
    let t = str_trim(raw);
    if t.as_str().is_empty() {
        return String::new();
    }
    let u = match url_without_fragment(t.as_str()) {
        Some(u) => u,
        None => return t,
    };
    if !password.is_empty() && (str_eq(disk_type, "baidu") || str_eq(disk_type, "quark") || str_eq(
        disk_type,
        "uc",
    )) {
        let mut qp = match url_query_pairs(u.as_str()) {
            Some(qp) => qp,
            None => return u,
        };
        let ghost pv = qp@.map_values(|p: (String, String)| (p.0@, p.1@));
        let mut found = false;
        let mut i: usize = 0;
        while i < qp.len()
            invariant
                i <= qp@.len(),
                pv == qp@.map_values(|p: (String, String)| (p.0@, p.1@)),
                found <==> exists|j: int| 0 <= j < i && pv[j].0 == "pwd"@,
            decreases qp@.len() - i,
        {
            assert(pv[i as int].0 == qp@[i as int].0@);
            if str_eq(qp[i].0.as_str(), "pwd") {
                found = true;
            }
            i = i + 1;
        }
        if found {
            return u;
        }
        qp.push(("pwd".to_owned(), password.to_owned()));
        assert(qp@.map_values(|p: (String, String)| (p.0@, p.1@)) =~= pv.push(("pwd"@, password@)));
        let q = encode_query(&qp);
        match url_with_query(u.as_str(), q.as_str()) {
            Some(u2) => u2,
            None => u,
        }
    } else {
        u
    }
}

// ---------------------------------------------------------------------
// Verdicts
// ---------------------------------------------------------------------

/// The drive kinds that a quick check knows.
pub open spec fn checkable(disk_type: Seq<char>) -> bool {
    disk_type == "aliyun"@ || disk_type == "quark"@ || disk_type == "uc"@ || disk_type == "baidu"@
        || disk_type == "tianyi"@ || disk_type == "123"@ || disk_type == "xunlei"@ || disk_type
        == "115"@ || disk_type == "mobile"@
}

/// A verdict record for `item` made at `now`.
pub open spec fn check_result_of(
    item: CheckItem,
    normalized: Seq<char>,
    state: Seq<char>,
    cache_hit: bool,
    summary: Seq<char>,
    now: i64,
) -> CheckResultView {
    CheckResultView {
        disk_type: item.disk_type@,
        url: item.url@,
        normalized_url: Some(normalized),
        state,
        cache_hit,
        checked_at: now,
        expires_at: (now + ttl_secs_of(state) * 1000) as i64,
        summary: Some(summary),
    }
}

/// Builds a verdict record for `item` at `now`, valid for the lifetime of
/// its state.
pub fn build_result(
    item: &CheckItem,
    normalized: &str,
    state: &str,
    cache_hit: bool,
    summary: &str,
    now: i64,
) -> (r: CheckResult)
    requires
        now <= i64::MAX - MAX_TTL_MS,
    ensures
        r@ == check_result_of(*item, normalized@, state@, cache_hit, summary@, now),
{
    let ttl = ttl_for_state(state);
    let exp = now + (ttl as i64) * 1000;
    CheckResult {
        disk_type: item.disk_type.clone(),
        url: item.url.clone(),
        normalized_url: Some(normalized.to_owned()),
        state: state.to_owned(),
        cache_hit,
        checked_at: now,
        expires_at: exp,
        summary: Some(summary.to_owned()),
    }
}

/// The quick verdict on a normalized link: for a known drive kind,
/// `uncertain` when the link holds `http` and `bad` otherwise; for other
/// kinds `unsupported`.
pub open spec fn quick_check_of(item: CheckItem, normalized: Seq<char>, now: i64) -> CheckResultView {
    if checkable(item.disk_type@) {
        if seq_contains(normalized, "http"@) {
            check_result_of(item, normalized, "uncertain"@, false, "Rust版本检测器待接入平台API"@, now)
        } else {
            check_result_of(item, normalized, "bad"@, false, "链接失效"@, now)
        }
    } else {
        check_result_of(item, normalized, "unsupported"@, false, "当前平台暂不支持检测"@, now)
    }
}

/// Gives the quick verdict on a normalized link (see [`quick_check_of`]).
pub fn quick_check(item: &CheckItem, normalized: &str, now: i64) -> (r: CheckResult)
    requires
        now <= i64::MAX - MAX_TTL_MS,
    ensures
        r@ == quick_check_of(*item, normalized@, now),
{
    let d = item.disk_type.as_str();
    if str_eq(d, "aliyun") || str_eq(d, "quark") || str_eq(d, "uc") || str_eq(d, "baidu") || str_eq(
        d,
        "tianyi",
    ) || str_eq(d, "123") || str_eq(d, "xunlei") || str_eq(d, "115") || str_eq(d, "mobile") {
        if str_contains(normalized, "http") {
            build_result(item, normalized, "uncertain", false, "Rust版本检测器待接入平台API", now)
        } else {
            build_result(item, normalized, "bad", false, "链接失效", now)
        }
    } else {
        build_result(item, normalized, "unsupported", false, "当前平台暂不支持检测", now)
    }
}

// ---------------------------------------------------------------------
// The check service and its verdict cache
// ---------------------------------------------------------------------

/// The cache key of a link: `<disk_type>|<normalized link>`.
pub open spec fn check_key_of(disk_type: Seq<char>, normalized: Seq<char>) -> Seq<char> {
    disk_type + "|"@ + normalized
}

/// One cached verdict.
#[derive(Debug)]
pub struct CheckCacheEntry {
    pub key: String,
    pub result: CheckResult,
    pub expires_at: i64,
}

/// Mathematical view of a [`CheckCacheEntry`].
pub struct CheckCacheEntryView {
    pub key: Seq<char>,
    pub result: CheckResultView,
    pub expires_at: i64,
}

impl View for CheckCacheEntry {
    type V = CheckCacheEntryView;

    open spec fn view(&self) -> CheckCacheEntryView {
        CheckCacheEntryView { key: self.key@, result: self.result@, expires_at: self.expires_at }
    }
}

/// Position of the cached verdict stored under `k`, if any (the last one,
/// though the cache holds at most one per key).
pub open spec fn key_position(es: Seq<CheckCacheEntryView>, k: Seq<char>) -> Option<int>
    decreases es.len(),
{
    if es.len() == 0 {
        None
    } else if es.last().key == k {
        Some(es.len() - 1)
    } else {
        key_position(es.drop_last(), k)
    }
}

/// No two cached verdicts share a key.
pub open spec fn verdict_keys_distinct(es: Seq<CheckCacheEntryView>) -> bool {
    forall|i: int, j: int| 0 <= i < j < es.len() ==> (#[trigger] es[i]).key != (#[trigger] es[j]).key
}

proof fn lemma_key_position(es: Seq<CheckCacheEntryView>, k: Seq<char>)
    ensures
        match key_position(es, k) {
            Some(i) => 0 <= i < es.len() && es[i].key == k && forall|j: int|
                i < j < es.len() ==> (#[trigger] es[j]).key != k,
            None => forall|j: int| 0 <= j < es.len() ==> (#[trigger] es[j]).key != k,
        },
    decreases es.len(),
{
    if es.len() > 0 && es.last().key != k {
        lemma_key_position(es.drop_last(), k);
        let d = es.drop_last();
        assert forall|j: int| 0 <= j < es.len() - 1 implies #[trigger] es[j] == d[j] by {}
    }
}

proof fn lemma_key_position_at(es: Seq<CheckCacheEntryView>, k: Seq<char>, i: int)
    requires
        0 <= i < es.len(),
        es[i].key == k,
        forall|j: int| i < j < es.len() ==> (#[trigger] es[j]).key != k,
    ensures
        key_position(es, k) == Some(i),
    decreases es.len(),
{
    if i < es.len() - 1 {
        let d = es.drop_last();
        assert forall|j: int| i < j < d.len() implies (#[trigger] d[j]).key != k by {
            assert(d[j] == es[j]);
        }
        lemma_key_position_at(d, k, i);
    }
}

/// A verdict as served from the cache.
pub open spec fn as_cached(v: CheckResultView) -> CheckResultView {
    CheckResultView { cache_hit: true, ..v }
}

/// The verdict on `item` at `now` given the cached verdicts `es`: an empty
/// link is `uncertain` (invalid format) and is not cached; a live cached
/// verdict is served; otherwise the quick verdict is made.
pub open spec fn verdict_of(es: Seq<CheckCacheEntryView>, item: CheckItem, now: i64) -> CheckResultView {
    let n = normalized_link_of(item.disk_type@, item.url@, item.password@);
    if n.len() == 0 {
        check_result_of(item, Seq::empty(), "uncertain"@, false, "链接格式无效"@, now)
    } else {
        match key_position(es, check_key_of(item.disk_type@, n)) {
            Some(i) => if es[i].expires_at > now {
                as_cached(es[i].result)
            } else {
                quick_check_of(item, n, now)
            },
            None => quick_check_of(item, n, now),
        }
    }
}

/// The cached verdicts after checking `item` at `now`: a freshly made
/// verdict is stored under its key until it expires, in place of an
/// expired verdict under that key, or added after the others.
pub open spec fn cache_after(es: Seq<CheckCacheEntryView>, item: CheckItem, now: i64) -> Seq<
    CheckCacheEntryView,
> {
    let n = normalized_link_of(item.disk_type@, item.url@, item.password@);
    let k = check_key_of(item.disk_type@, n);
    let v = quick_check_of(item, n, now);
    let fresh = CheckCacheEntryView {
        key: k,
        result: v,
        expires_at: (now + ttl_secs_of(v.state) * 1000) as i64,
    };
    if n.len() == 0 {
        es
    } else {
        match key_position(es, k) {
            Some(i) => if es[i].expires_at > now {
                es
            } else {
                es.update(i, fresh)
            },
            None => es.push(fresh),
        }
    }
}

/// Checking a link keeps the keys of the cached verdicts distinct.
pub proof fn law_check_keys_stay_distinct(es: Seq<CheckCacheEntryView>, item: CheckItem, now: i64)
    requires
        verdict_keys_distinct(es),
    ensures
        verdict_keys_distinct(cache_after(es, item, now)),
{
    let n = normalized_link_of(item.disk_type@, item.url@, item.password@);
    let k = check_key_of(item.disk_type@, n);
    lemma_key_position(es, k);
    let es2 = cache_after(es, item, now);
    assert forall|i: int, j: int| 0 <= i < j < es2.len() implies (#[trigger] es2[i]).key
        != (#[trigger] es2[j]).key by {
        if n.len() > 0 {
            match key_position(es, k) {
                Some(p) => {
                    if es[p].expires_at <= now {
                        if i != p && j != p {
                            assert(es2[i] == es[i] && es2[j] == es[j]);
                        } else if i == p {
                            assert(es2[j] == es[j]);
                            assert(es[p].key != es[j].key);
                        } else {
                            assert(es2[i] == es[i]);
                            assert(es[i].key != es[p].key);
                        }
                    }
                },
                None => {
                    if j == es.len() {
                        assert(es2[i] == es[i]);
                    } else {
                        assert(es2[i] == es[i] && es2[j] == es[j]);
                    }
                },
            }
        }
    }
}

/// The cached verdicts after checking `items` in order at `now`.
pub open spec fn cache_after_batch(es: Seq<CheckCacheEntryView>, items: Seq<CheckItem>, now: i64) -> Seq<
    CheckCacheEntryView,
>
    decreases items.len(),
{
    if items.len() == 0 {
        es
    } else {
        cache_after(cache_after_batch(es, items.drop_last(), now), items.last(), now)
    }
}

/// The share-link validity service with its cache of verdicts.
#[derive(Debug)]
pub struct CheckService {
    cache: Vec<CheckCacheEntry>,
}

impl CheckService {
    /// The cached verdicts, oldest first.
    pub closed spec fn cached(&self) -> Seq<CheckCacheEntryView> {
        self.cache@.map_values(|e: CheckCacheEntry| e@)
    }

    /// A service with an empty cache.
    pub fn new() -> (r: CheckService)
        ensures
            r.cached().len() == 0,
    {
        let r = CheckService { cache: Vec::new() };
        assert(r.cached() =~= Seq::<CheckCacheEntryView>::empty());
        r
    }

    /// Empties the cache.
    pub fn clear_cache(&mut self)
        ensures
            final(self).cached().len() == 0,
    {
        self.cache = Vec::new();
        assert(self.cached() =~= Seq::<CheckCacheEntryView>::empty());
    }

    /// Index of the cached verdict stored under `k`.
    fn lookup(&self, k: &[char]) -> (r: Option<usize>)
        ensures
            r matches Some(i) ==> i < self.cached().len() && key_position(self.cached(), k@) == Some(
                i as int,
            ),
            r is None ==> key_position(self.cached(), k@) is None,
    {
        let ghost es = self.cached();
        let mut i: usize = self.cache.len();
        assert(es.take(es.len() as int) =~= es);
        while i > 0
            invariant
                i <= self.cache@.len(),
                es == self.cached(),
                es.len() == self.cache@.len(),
                key_position(es, k@) == key_position(es.take(i as int), k@),
            decreases i,
        {
            let kv = chars_of(self.cache[i - 1].key.as_str());
            proof {
                assert(es.take(i as int).last() == es[i - 1]);
                assert(es.take(i as int).drop_last() =~= es.take(i - 1));
            }
            if chars_eq(kv.as_slice(), k) {
                return Some(i - 1);
            }
            i = i - 1;
        }
        None
    }

    /// Checks one link at `now` (see [`verdict_of`] and [`cache_after`]).
    pub fn check_one(&mut self, item: &CheckItem, now: i64) -> (r: CheckResult)
        requires
            now <= i64::MAX - MAX_TTL_MS,
        ensures
            r@ == verdict_of(old(self).cached(), *item, now),
            final(self).cached() == cache_after(old(self).cached(), *item, now),
            verdict_keys_distinct(old(self).cached()) ==> verdict_keys_distinct(final(self).cached()),
    {
        let normalized = normalize_share_link(
            item.disk_type.as_str(),
            item.url.as_str(),
            item.password.as_str(),
        );
        if normalized.as_str().is_empty() {
            proof {
                reveal_strlit("");
                assert(""@ =~= Seq::<char>::empty());
            }
            return build_result(item, "", "uncertain", false, "链接格式无效", now);
        }
        let a = concat2(item.disk_type.as_str(), "|");
        let key = concat2(a.as_str(), normalized.as_str());
        let kv = chars_of(key.as_str());
        proof {
            if verdict_keys_distinct(self.cached()) {
                law_check_keys_stay_distinct(self.cached(), *item, now);
            }
        }
        let found = self.lookup(kv.as_slice());
        if let Some(i) = found {
            if self.cache[i].expires_at > now {
                let mut hit = self.cache[i].result.duplicate();
                hit.cache_hit = true;
                return hit;
            }
        }
        let mut result = quick_check(item, normalized.as_str(), now);
        result.cache_hit = false;
        let ttl = ttl_for_state(result.state.as_str());
        let copy = result.duplicate();
        let ghost before = self.cached();
        let entry = CheckCacheEntry { key, result: copy, expires_at: now + (ttl as i64) * 1000 };
        match found {
            Some(i) => {
                self.cache.set(i, entry);
                assert(self.cached() =~= before.update(i as int, self.cache@[i as int]@));
            },
            None => {
                self.cache.push(entry);
                assert(self.cached() =~= before.push(self.cache@.last()@));
            },
        }
        result
    }

    /// Checks a batch of links at `now`, in order.
    pub fn check(&mut self, items: &[CheckItem], now: i64) -> (r: CheckResponse)
        requires
            now <= i64::MAX - MAX_TTL_MS,
        ensures
            r.results@.len() == items@.len(),
            forall|i: int|
                0 <= i < items@.len() ==> (#[trigger] r.results@[i])@ == verdict_of(
                    cache_after_batch(old(self).cached(), items@.take(i), now),
                    items@[i],
                    now,
                ),
            final(self).cached() == cache_after_batch(old(self).cached(), items@, now),
            verdict_keys_distinct(old(self).cached()) ==> verdict_keys_distinct(final(self).cached()),
    {
        let mut results: Vec<CheckResult> = Vec::new();
        let mut i: usize = 0;
        while i < items.len()
            invariant
                i <= items@.len(),
                now <= i64::MAX - MAX_TTL_MS,
                results@.len() == i,
                self.cached() == cache_after_batch(old(self).cached(), items@.take(i as int), now),
                verdict_keys_distinct(old(self).cached()) ==> verdict_keys_distinct(self.cached()),
                forall|j: int|
                    0 <= j < i ==> (#[trigger] results@[j])@ == verdict_of(
                        cache_after_batch(old(self).cached(), items@.take(j), now),
                        items@[j],
                        now,
                    ),
            decreases items@.len() - i,
        {
            let r = self.check_one(&items[i], now);
            proof {
                assert(items@.take(i + 1).drop_last() =~= items@.take(i as int));
                assert(items@.take(i + 1).last() == items@[i as int]);
            }
            results.push(r);
            i = i + 1;
        }
        assert(items@.take(items@.len() as int) =~= items@);
        CheckResponse { results }
    }
}

/// A verdict made at `now` is served from the cache, marked as a hit, when
/// the same link is checked again before it expires.
pub proof fn law_check_cached_within_ttl(es: Seq<CheckCacheEntryView>, item: CheckItem, now: i64, t: i64)
    requires
        normalized_link_of(item.disk_type@, item.url@, item.password@).len() > 0,
        now <= t,
        t < now + ttl_secs_of(verdict_of(es, item, now).state) * 1000,
        now <= i64::MAX - MAX_TTL_MS,
        !verdict_of(es, item, now).cache_hit,
    ensures
        verdict_of(cache_after(es, item, now), item, t) == as_cached(verdict_of(es, item, now)),
{
    let n = normalized_link_of(item.disk_type@, item.url@, item.password@);
    let k = check_key_of(item.disk_type@, n);
    let es2 = cache_after(es, item, now);
    let v = quick_check_of(item, n, now);
    reveal_strlit("uncertain");
    reveal_strlit("bad");
    reveal_strlit("unsupported");
    reveal_strlit("ok");
    reveal_strlit("locked");
    lemma_key_position(es, k);
    match key_position(es, k) {
        Some(i) => {
            assert(es2 == es.update(i, es2[i]));
            lemma_key_position_at(es2, k, i);
        },
        None => {
            lemma_key_position_at(es2, k, es.len() as int);
        },
    }
}

} // verus!
