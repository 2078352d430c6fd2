//! Request handling logic: query parsing, request normalization, usage
//! events, and the robots and sitemap documents.
use vstd::prelude::*;
use crate::constants::{DiskType, SourceType, disk_type_name, disk_type_of_lower, source_type_from_name};
use crate::model::{ApiErrorResponse, CheckRequest, MetricRequest, SearchRequest, strs_view};
use crate::service::search::effective_source;
use crate::text::{
    chars_of, concat2, form_urlencode, nonempty_pieces, spec_form_urlencode, spec_to_lowercase, spec_trim, split_char,
    split_chars, str_eq, string_of, trim_chars, str_trim,
};

verus! {

broadcast use vstd::string::group_string_axioms;

// ---------------------------------------------------------------------
// Comma-separated lists
// ---------------------------------------------------------------------

/// The items of a comma-separated list: the pieces between commas,
/// trimmed, without the empty ones.
pub open spec fn csv_items(s: Seq<char>) -> Seq<Seq<char>> {
    nonempty_pieces(split_char(s, ',').map_values(|p: Seq<char>| spec_trim(p)))
}

/// No item of a comma-separated list is empty.
pub proof fn law_csv_items_nonempty(s: Seq<char>)
    ensures
        forall|i: int| 0 <= i < csv_items(s).len() ==> (#[trigger] csv_items(s)[i]).len() > 0,
{
    crate::text::lemma_nonempty_pieces(split_char(s, ',').map_values(|p: Seq<char>| spec_trim(p)));
}

/// Splits a comma-separated list (see [`csv_items`]); nothing for `None`.
pub fn split_csv(v: Option<&String>) -> (r: Vec<String>)
    ensures
        strs_view(r@) == match v {
            Some(s) => csv_items(s@),
            None => Seq::empty(),
        },
{
    match v {
        None => {
            let r: Vec<String> = Vec::new();
            assert(strs_view(r@) =~= Seq::<Seq<char>>::empty());
            r
        },
        Some(raw) => {
            let cs = chars_of(raw.as_str());
            let pieces = split_chars(cs.as_slice(), ',');
            let ghost pv = pieces@.map_values(|p: Vec<char>| p@);
            let ghost tv = pv.map_values(|p: Seq<char>| spec_trim(p));
            let mut out: Vec<String> = Vec::new();
            let mut i: usize = 0;
            while i < pieces.len()
                invariant
                    i <= pieces@.len(),
                    pv == pieces@.map_values(|p: Vec<char>| p@),
                    tv == pv.map_values(|p: Seq<char>| spec_trim(p)),
                    strs_view(out@) == nonempty_pieces(tv.take(i as int)),
                decreases pieces@.len() - i,
            {
                let t = trim_chars(pieces[i].as_slice());
                proof {
                    assert(tv.take(i + 1).drop_last() =~= tv.take(i as int));
                    assert(tv.take(i + 1).last() == tv[i as int]);
                    assert(tv[i as int] == spec_trim(pieces@[i as int]@));
                }
                if t.len() > 0 {
                    let ts = string_of(t.as_slice());
                    out.push(ts);
                }
                i = i + 1;
                assert(strs_view(out@) =~= nonempty_pieces(tv.take(i as int)));
            }
            assert(tv.take(pieces@.len() as int) =~= tv);
            out
        },
    }
}

// ---------------------------------------------------------------------
// Integers in query strings
// ---------------------------------------------------------------------

/// Whether `c` is an ASCII digit.
pub open spec fn is_digit(c: char) -> bool {
    '0' <= c && c <= '9'
}

/// The decimal value of a sequence of digits.
pub open spec fn digits_value(d: Seq<char>) -> int
    decreases d.len(),
{
    if d.len() == 0 {
        0
    } else {
        digits_value(d.drop_last()) * 10 + (d.last() as int - '0' as int)
    }
}

/// Whether every character of `d` is an ASCII digit.
pub open spec fn all_digits(d: Seq<char>) -> bool {
    forall|i: int| 0 <= i < d.len() ==> is_digit(#[trigger] d[i])
}

/// `s` without its leading sign character, if any.
pub open spec fn unsigned_part(s: Seq<char>) -> Seq<char> {
    if s.len() > 0 && (s[0] == '-' || s[0] == '+') {
        s.drop_first()
    } else {
        s
    }
}

/// What `str::parse::<i32>` gives: an optional sign (`+` or `-`) then one
/// or more ASCII digits, whose value must fit in an `i32`.
pub open spec fn parse_i32_of(s: Seq<char>) -> Option<i32> {
    let neg = s.len() > 0 && s[0] == '-';
    let d = unsigned_part(s);
    if d.len() == 0 || !all_digits(d) {
        None
    } else {
        let v = if neg { -digits_value(d) } else { digits_value(d) };
        if i32::MIN <= v <= i32::MAX {
            Some(v as i32)
        } else {
            None
        }
    }
}

proof fn lemma_digits_value_nonneg(d: Seq<char>)
    requires
        forall|i: int| 0 <= i < d.len() ==> is_digit(#[trigger] d[i]),
    ensures
        digits_value(d) >= 0,
    decreases d.len(),
{
    if d.len() > 0 {
        lemma_digits_value_nonneg(d.drop_last());
        assert(is_digit(d[d.len() - 1]));
    }
}

proof fn lemma_parse_non_digit(s: Seq<char>, d: Seq<char>, k: int)
    requires
        d == unsigned_part(s),
        0 <= k < d.len(),
        !is_digit(d[k]),
    ensures
        parse_i32_of(s) is None,
{
    assert(!all_digits(d));
}

/// Parses a decimal `i32` (see [`parse_i32_of`]).
pub fn parse_i32(s: &str) -> (r: Option<i32>)
    ensures
        r == parse_i32_of(s@),
{
    let cs = chars_of(s);
    let n = cs.len();
    if n == 0 {
        return None;
    }
    let neg = cs[0] == '-';
    let signed = cs[0] == '-' || cs[0] == '+';
    let start: usize = if signed { 1 } else { 0 };
    if start >= n {
        proof {
            assert(cs@.drop_first().len() == 0);
        }
        return None;
    }
    let ghost d = if signed { cs@.drop_first() } else { cs@ };
    let cap: i64 = 2_147_483_649;
    let mut acc: i64 = 0;
    let mut i: usize = start;
    while i < n
        invariant
            n == cs@.len(),
            cap == 2_147_483_649,
            cs@ == s@,
            n > 0,
            signed == (cs@[0] == '-' || cs@[0] == '+'),
            start <= i <= n,
            start == (if signed { 1int } else { 0int }),
            d == cs@.subrange(start as int, n as int),
            forall|k: int| 0 <= k < i - start ==> is_digit(#[trigger] d[k]),
            0 <= acc <= cap,
            acc < cap ==> acc == digits_value(d.take(i - start)),
            acc == cap ==> digits_value(d.take(i - start)) >= cap,
        decreases n - i,
    {
        let c = cs[i];
        if !('0' <= c && c <= '9') {
            proof {
                assert(d[i - start] == c);
                assert(!is_digit(d[i - start]));
                assert(signed ==> d =~= cs@.drop_first());
                assert(!signed ==> d =~= cs@);
                assert(0 <= i - start < d.len());
                assert(!(forall|k: int| 0 <= k < d.len() ==> is_digit(#[trigger] d[k])));
                lemma_parse_non_digit(s@, d, i - start);
            }
            return None;
        }
        let dv = (c as u32 - '0' as u32) as i64;
        proof {
            assert(dv == c as int - '0' as int);
            assert(0 <= dv <= 9);
            assert(d.take(i - start + 1).drop_last() =~= d.take(i - start));
            assert(d.take(i - start + 1).last() == c);
            assert(forall|k: int| 0 <= k < d.take(i - start).len() ==> is_digit(#[trigger] d.take(i - start)[k]));
            lemma_digits_value_nonneg(d.take(i - start));
            assert(digits_value(d.take(i - start + 1)) == digits_value(d.take(i - start)) * 10 + (c as int
                - '0' as int));
            if acc == cap {
                assert(digits_value(d.take(i - start)) >= cap);
                assert(digits_value(d.take(i - start + 1)) >= cap);
            }
        }
        let ghost prev_v = digits_value(d.take(i - start));
        let ghost new_v = digits_value(d.take(i - start + 1));
        assert(new_v == prev_v * 10 + dv);
        assert(acc < cap ==> acc == prev_v);
        assert(acc == cap ==> prev_v >= cap);
        if acc >= 214_748_365 {
            assert(prev_v >= 214_748_365);
            assert(new_v >= cap) by (nonlinear_arith)
                requires
                    prev_v >= 214_748_365,
                    new_v == prev_v * 10 + dv,
                    dv >= 0,
                    cap == 2_147_483_649,
            ;
            acc = cap;
        } else {
            acc = acc * 10 + dv;
            if acc > cap {
                acc = cap;
            }
        }
        i = i + 1;
    }
    proof {
        assert(d.take(n - start) =~= d);
        assert(signed ==> d =~= cs@.drop_first());
        assert(!signed ==> d =~= cs@);
    }
    let v: i64 = if neg { -acc } else { acc };
    if v < i32::MIN as i64 || v > i32::MAX as i64 {
        None
    } else {
        Some(v as i32)
    }
}

/// What `str::parse::<usize>` gives: an optional `+` then one or more
/// ASCII digits, whose value must fit in a `usize`.
pub open spec fn parse_usize_of(s: Seq<char>) -> Option<usize> {
    let d = if s.len() > 0 && s[0] == '+' {
        s.drop_first()
    } else {
        s
    };
    if d.len() == 0 || !all_digits(d) || digits_value(d) > usize::MAX {
        None
    } else {
        Some(digits_value(d) as usize)
    }
}

/// Parses a decimal `usize` (see [`parse_usize_of`]).
pub fn parse_usize(s: &str) -> (r: Option<usize>)
    ensures
        r == parse_usize_of(s@),
{
    let cs = chars_of(s);
    let n = cs.len();
    let start: usize = if n > 0 && cs[0] == '+' { 1 } else { 0 };
    if start >= n {
        proof {
            if n > 0 {
                assert(cs@.drop_first().len() == 0);
            }
        }
        return None;
    }
    let ghost d = cs@.subrange(start as int, n as int);
    proof {
        if start == 1 {
            assert(d =~= cs@.drop_first());
        } else {
            assert(d =~= cs@);
        }
    }
    let mut acc: usize = 0;
    let mut overflow = false;
    let mut i: usize = start;
    while i < n
        invariant
            n == cs@.len(),
            cs@ == s@,
            start <= i <= n,
            d == cs@.subrange(start as int, n as int),
            d == (if n > 0 && cs@[0] == '+' { cs@.drop_first() } else { cs@ }),
            forall|k: int| 0 <= k < i - start ==> is_digit(#[trigger] d[k]),
            !overflow ==> acc == digits_value(d.take(i - start)),
            overflow ==> digits_value(d.take(i - start)) > usize::MAX,
        decreases n - i,
    {
        let c = cs[i];
        if !('0' <= c && c <= '9') {
            proof {
                assert(d[i - start] == c);
                assert(!all_digits(d));
            }
            return None;
        }
        let dv: usize = (c as u32 - '0' as u32) as usize;
        proof {
            assert(d.take(i - start + 1).drop_last() =~= d.take(i - start));
            assert(d.take(i - start + 1).last() == c);
            assert(forall|k: int| 0 <= k < d.take(i - start).len() ==> is_digit(#[trigger] d.take(i - start)[k]));
            lemma_digits_value_nonneg(d.take(i - start));
        }
        if !overflow {
            match acc.checked_mul(10) {
                Some(m) => match m.checked_add(dv) {
                    Some(v) => {
                        acc = v;
                    },
                    None => {
                        overflow = true;
                    },
                },
                None => {
                    overflow = true;
                },
            }
        }
        i = i + 1;
    }
    proof {
        assert(d.take(n - start) =~= d);
    }
    if overflow {
        None
    } else {
        Some(acc)
    }
}

// ---------------------------------------------------------------------
// Query strings
// ---------------------------------------------------------------------

/// View of query parameters.
pub open spec fn params_view(q: Seq<(String, String)>) -> Seq<(Seq<char>, Seq<char>)> {
    q.map_values(|p: (String, String)| (p.0@, p.1@))
}

/// The value of the first parameter named `k`.
pub open spec fn param_of(q: Seq<(Seq<char>, Seq<char>)>, k: Seq<char>) -> Option<Seq<char>>
    decreases q.len(),
{
    if q.len() == 0 {
        None
    } else if q[0].0 == k {
        Some(q[0].1)
    } else {
        param_of(q.drop_first(), k)
    }
}

/// The value of the first parameter named `k`.
pub fn query_get<'a>(q: &'a Vec<(String, String)>, k: &str) -> (r: Option<&'a String>)
    ensures
        match r {
            Some(v) => param_of(params_view(q@), k@) == Some(v@),
            None => param_of(params_view(q@), k@) is None,
        },
{
    let ghost qv = params_view(q@);
    let mut i: usize = 0;
    assert(qv.skip(0) =~= qv);
    while i < q.len()
        invariant
            i <= q@.len(),
            qv == params_view(q@),
            param_of(qv, k@) == param_of(qv.skip(i as int), k@),
        decreases q@.len() - i,
    {
        proof {
            assert(qv.skip(i as int).drop_first() =~= qv.skip(i + 1));
            assert(qv.skip(i as int)[0] == qv[i as int]);
        }
        if str_eq(q[i].0.as_str(), k) {
            return Some(&q[i].1);
        }
        i = i + 1;
    }
    None
}

// ---------------------------------------------------------------------
// Search requests
// ---------------------------------------------------------------------

/// A request after normalization: an empty source means `all`; a `tg`
/// request asks no plugins and a `plugin` request asks no channels.
pub open spec fn normalized_request(old_req: SearchRequest, new_req: SearchRequest) -> bool {
    let src = effective_source(old_req.source_type@);
    let kind = source_type_from_name(src);
    &&& new_req.source_type@ == src
    &&& new_req.plugins@ == if kind == SourceType::Tg { Seq::empty() } else { old_req.plugins@ }
    &&& new_req.channels@ == if kind == SourceType::Plugin { Seq::empty() } else { old_req.channels@ }
    &&& new_req.keyword == old_req.keyword
    &&& new_req.concurrency == old_req.concurrency
    &&& new_req.force_refresh == old_req.force_refresh
    &&& new_req.result_type == old_req.result_type
    &&& new_req.ext == old_req.ext
    &&& new_req.cloud_types == old_req.cloud_types
}

/// Normalizes a request (see [`normalized_request`]).
pub fn normalize_search_request(req: &mut SearchRequest)
    ensures
        normalized_request(*old(req), *final(req)),
{
    if req.source_type.as_str().is_empty() {
        req.source_type = SourceType::All.as_str().to_owned();
    }
    match SourceType::from_str(req.source_type.as_str()) {
        SourceType::Tg => req.plugins.clear(),
        SourceType::Plugin => req.channels.clear(),
        _ => {},
    }
}

/// Normalizing twice changes nothing more.
pub proof fn law_normalize_idempotent(a: SearchRequest, b: SearchRequest, c: SearchRequest)
    requires
        normalized_request(a, b),
        normalized_request(b, c),
    ensures
        c.source_type@ == b.source_type@,
        c.plugins@ == b.plugins@,
        c.channels@ == b.channels@,
{
    reveal_strlit("all");
    reveal_strlit("tg");
    reveal_strlit("plugin");
    assert(b.source_type@.len() > 0);
}

/// The key/value pairs of a JSON object text (values as JSON text), as
/// `serde_json` parses it into a `serde_json::Map`; `None` when the text is
/// not a JSON object.
pub uninterp spec fn spec_json_object_pairs(text: Seq<char>) -> Option<Seq<(Seq<char>, Seq<char>)>>;

/// `serde_json::from_str` into a `serde_json::Map`, each value serialized
/// back to JSON text: the result is named `spec_json_object_pairs`.
#[verifier::external_body]
fn json_object_pairs(text: &str) -> (r: Option<Vec<(String, String)>>)
    ensures
        match r {
            Some(v) => spec_json_object_pairs(text@) == Some(params_view(v@)),
            None => spec_json_object_pairs(text@) is None,
        },
{
    let m = serde_json::from_str::<serde_json::Map<String, serde_json::Value>>(text).ok()?;
    Some(m.into_iter().map(|(k, v)| (k, v.to_string())).collect())
}

/// Concurrency of a search whose request does not give a valid one.
pub const DEFAULT_CONCURRENCY: i32 = 6;

/// The request described by query parameters, before normalization:
/// `kw`, the comma lists `channels` (the default channels when empty),
/// `plugins` and `cloud_types`, `conc` ([`DEFAULT_CONCURRENCY`] unless a
/// valid `i32`), `refresh`
/// (`true` only when exactly `true`), `src` (`all` when absent) and `ext`
/// (a JSON object, or nothing).
pub open spec fn request_from_params(
    q: Seq<(Seq<char>, Seq<char>)>,
    default_channels: Seq<Seq<char>>,
    req: SearchRequest,
) -> bool {
    let channels = match param_of(q, "channels"@) {
        Some(s) => csv_items(s),
        None => Seq::empty(),
    };
    &&& req.keyword@ == match param_of(q, "kw"@) {
        Some(s) => s,
        None => Seq::empty(),
    }
    &&& strs_view(req.channels@) == if channels.len() == 0 { default_channels } else { channels }
    &&& strs_view(req.plugins@) == match param_of(q, "plugins"@) {
        Some(s) => csv_items(s),
        None => Seq::empty(),
    }
    &&& strs_view(req.cloud_types@) == match param_of(q, "cloud_types"@) {
        Some(s) => csv_items(s),
        None => Seq::empty(),
    }
    &&& req.concurrency == match param_of(q, "conc"@) {
        Some(s) => match parse_i32_of(s) {
            Some(v) => v,
            None => DEFAULT_CONCURRENCY,
        },
        None => DEFAULT_CONCURRENCY,
    }
    &&& req.force_refresh == (param_of(q, "refresh"@) == Some("true"@))
    &&& req.result_type@ == Seq::<char>::empty()
    &&& req.source_type@ == match param_of(q, "src"@) {
        Some(s) => s,
        None => "all"@,
    }
    &&& params_view(req.ext@) == match param_of(q, "ext"@) {
        Some(s) => match spec_json_object_pairs(s) {
            Some(ps) => ps,
            None => Seq::empty(),
        },
        None => Seq::empty(),
    }
}

/// Builds a search request from query parameters and normalizes it.
pub fn build_request_from_query(default_channels: &Vec<String>, q: &Vec<(String, String)>) -> (r:
    SearchRequest)
    ensures
        exists|pre: SearchRequest|
            request_from_params(params_view(q@), strs_view(default_channels@), pre)
                && normalized_request(pre, r),
{
    let keyword = match query_get(q, "kw") {
        Some(s) => s.clone(),
        None => String::new(),
    };
    let channels = split_csv(query_get(q, "channels"));
    let plugins = split_csv(query_get(q, "plugins"));
    let cloud_types = split_csv(query_get(q, "cloud_types"));
    let concurrency = match query_get(q, "conc") {
        Some(s) => match parse_i32(s.as_str()) {
            Some(v) => v,
            None => DEFAULT_CONCURRENCY,
        },
        None => DEFAULT_CONCURRENCY,
    };
    let force_refresh = match query_get(q, "refresh") {
        Some(s) => str_eq(s.as_str(), "true"),
        None => false,
    };
    let source_type = match query_get(q, "src") {
        Some(s) => s.clone(),
        None => SourceType::All.as_str().to_owned(),
    };
    let ext = match query_get(q, "ext") {
        Some(s) => match json_object_pairs(s.as_str()) {
            Some(v) => v,
            None => Vec::new(),
        },
        None => Vec::new(),
    };
    let channels = if channels.len() == 0 {
        crate::model::clone_strings(default_channels)
    } else {
        channels
    };
    let mut req = SearchRequest {
        keyword,
        channels,
        concurrency,
        force_refresh,
        result_type: String::new(),
        source_type,
        plugins,
        ext,
        cloud_types,
    };
    proof {
        assert(params_view(Seq::<(String, String)>::empty()) =~= Seq::empty());
    }
    let ghost pre = req;
    normalize_search_request(&mut req);
    req
}

// ---------------------------------------------------------------------
// Small helpers of the pages
// ---------------------------------------------------------------------

/// A drive kind of a URL, by the same rules as [`DiskType::from_url`].
pub fn classify_disk_type_from_url(url: &str) -> (r: String)
    ensures
        r@ == disk_type_name(disk_type_of_lower(spec_to_lowercase(url@))),
{
    DiskType::from_url(url).as_str().to_owned()
}

/// `s` without trailing `/` characters.
pub open spec fn trim_end_slashes(s: Seq<char>) -> Seq<char>
    decreases s.len(),
{
    if s.len() > 0 && s.last() == '/' {
        trim_end_slashes(s.drop_last())
    } else {
        s
    }
}

/// The site's domain without trailing slashes.
pub fn format_domain(domain: &str) -> (r: String)
    ensures
        r@ == trim_end_slashes(domain@),
{
    let cs = chars_of(domain);
    let mut e: usize = cs.len();
    assert(cs@.take(cs@.len() as int) =~= cs@);
    while e > 0 && cs[e - 1] == '/'
        invariant
            e <= cs@.len(),
            trim_end_slashes(domain@) == trim_end_slashes(cs@.take(e as int)),
        decreases e,
    {
        proof {
            assert(cs@.take(e as int).drop_last() =~= cs@.take(e - 1));
        }
        e = e - 1;
    }
    proof {
        assert(cs@.take(cs@.len() as int) =~= cs@);
    }
    let mut out: Vec<char> = Vec::new();
    let mut i: usize = 0;
    while i < e
        invariant
            i <= e <= cs@.len(),
            out@ == cs@.take(i as int),
        decreases e - i,
    {
        out.push(cs[i]);
        i = i + 1;
        assert(out@ =~= cs@.take(i as int));
    }
    string_of(out.as_slice())
}

/// The Chinese display name of a drive identifier, or the identifier itself
/// when unknown.
pub open spec fn type_friendly_of(dt: Seq<char>) -> Seq<char> {
    let d = crate::constants::disk_type_from_name(dt);
    if d == DiskType::Others {
        dt
    } else {
        crate::constants::disk_type_friendly(d)
    }
}

/// The Chinese display name of a drive identifier (see [`type_friendly_of`]).
pub fn type_friendly(dt: &str) -> (r: String)
    ensures
        r@ == type_friendly_of(dt@),
{
    let d = DiskType::from_str(dt);
    if d == DiskType::Others {
        dt.to_owned()
    } else {
        d.friendly_name().to_owned()
    }
}

// ---------------------------------------------------------------------
// Usage events
// ---------------------------------------------------------------------

/// What a usage event asks of the server.
#[derive(Debug)]
pub enum MetricOutcome {
    /// A click that lacks its keyword, title, URL or channel: rejected.
    Rejected,
    /// A click: logged; `store` holds the drive kind when the link is of a
    /// known kind, in which case the resource is recorded.
    Click { store: Option<String> },
    /// An event of unknown type: ignored with a warning.
    Unknown,
}

/// What a usage event asks: a `click` needs non-blank keyword, title, URL
/// and channel, and records the resource when its link is of a known kind.
pub open spec fn metric_outcome_of(req: MetricRequest, outcome: MetricOutcome) -> bool {
    if req.metric_type@ == "click"@ {
        if spec_trim(req.keyword@).len() == 0 || spec_trim(req.title@).len() == 0 || spec_trim(
            req.url@,
        ).len() == 0 || spec_trim(req.channel@).len() == 0 {
            outcome is Rejected
        } else {
            let dt = disk_type_name(disk_type_of_lower(spec_to_lowercase(req.url@)));
            match outcome {
                MetricOutcome::Click { store } => match store {
                    Some(s) => dt != "others"@ && s@ == dt,
                    None => dt == "others"@,
                },
                _ => false,
            }
        }
    } else {
        outcome is Unknown
    }
}

/// Decides what a usage event asks (see [`metric_outcome_of`]).
pub fn metric_outcome(req: &MetricRequest) -> (r: MetricOutcome)
    ensures
        metric_outcome_of(*req, r),
{
    if !str_eq(req.metric_type.as_str(), "click") {
        return MetricOutcome::Unknown;
    }
    let k = str_trim(req.keyword.as_str());
    let t = str_trim(req.title.as_str());
    let u = str_trim(req.url.as_str());
    let c = str_trim(req.channel.as_str());
    if k.as_str().is_empty() || t.as_str().is_empty() || u.as_str().is_empty() || c.as_str().is_empty() {
        return MetricOutcome::Rejected;
    }
    let dt = classify_disk_type_from_url(req.url.as_str());
    if str_eq(dt.as_str(), "others") {
        MetricOutcome::Click { store: None }
    } else {
        MetricOutcome::Click { store: Some(dt) }
    }
}


// ---------------------------------------------------------------------
// Request validation
// ---------------------------------------------------------------------

/// The error answer to a search whose keyword is blank: code 400,
/// "关键词不能为空"; none for other searches.
pub fn search_error(req: &SearchRequest) -> (r: Option<ApiErrorResponse>)
    ensures
        match r {
            Some(e) => spec_trim(req.keyword@).len() == 0 && e.code == 400 && e.message@ == "关键词不能为空"@,
            None => spec_trim(req.keyword@).len() > 0,
        },
{
    if str_trim(req.keyword.as_str()).as_str().is_empty() {
        Some(ApiErrorResponse { code: 400, message: "关键词不能为空".to_owned() })
    } else {
        None
    }
}

/// The error answer to a check without items: code 400, "items不能为空";
/// none otherwise.
pub fn check_error(req: &CheckRequest) -> (r: Option<ApiErrorResponse>)
    ensures
        match r {
            Some(e) => req.items@.len() == 0 && e.code == 400 && e.message@ == "items不能为空"@,
            None => req.items@.len() > 0,
        },
{
    if req.items.len() == 0 {
        Some(ApiErrorResponse { code: 400, message: "items不能为空".to_owned() })
    } else {
        None
    }
}

/// The error answer to a rejected usage event: code 400,
/// "keyword、title、url 不能为空".
pub fn metric_error() -> (r: ApiErrorResponse)
    ensures
        r.code == 400,
        r.message@ == "keyword、title、url 不能为空"@,
{
    ApiErrorResponse { code: 400, message: "keyword、title、url 不能为空".to_owned() }
}

} // verus!
