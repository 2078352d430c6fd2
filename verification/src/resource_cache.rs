//! The resources shown on resource pages, keyed by a short id derived from
//! their URL, and the popular keywords drawn from their titles.
use vstd::prelude::*;
use dashmap::DashMap;
use crate::clock::now_secs;
use crate::text::{digits_in_base, push_digits, spec_trim, str_eq, string_of, sub_chars, chars_of, chars_eq, trim_chars};

verus! {

broadcast use vstd::string::group_string_axioms;

/// `dashmap::DashMap`, a concurrent hash map.
#[verifier::external_type_specification]
#[verifier::external_body]
#[verifier::reject_recursive_types(K)]
#[verifier::reject_recursive_types(V)]
#[verifier::reject_recursive_types(S)]
pub struct ExDashMap<K, V, S>(DashMap<K, V, S>);

/// A resource: a share link with its title, drive kind, source channel and
/// password, and when it was recorded (Unix seconds).
#[derive(Debug, Clone)]
pub struct ResourceInfo {
    pub id: String,
    pub title: String,
    pub url: String,
    pub disk_type: String,
    pub channel: String,
    pub password: String,
    pub created_at: i64,
}

/// Mathematical view of a [`ResourceInfo`].
pub struct ResourceInfoView {
    pub id: Seq<char>,
    pub title: Seq<char>,
    pub url: Seq<char>,
    pub disk_type: Seq<char>,
    pub channel: Seq<char>,
    pub password: Seq<char>,
    pub created_at: i64,
}

impl View for ResourceInfo {
    type V = ResourceInfoView;

    open spec fn view(&self) -> ResourceInfoView {
        ResourceInfoView {
            id: self.id@,
            title: self.title@,
            url: self.url@,
            disk_type: self.disk_type@,
            channel: self.channel@,
            password: self.password@,
            created_at: self.created_at,
        }
    }
}

impl ResourceInfo {
    /// Copies this resource.
    pub fn duplicate(&self) -> (r: ResourceInfo)
        ensures
            r@ == self@,
    {
        ResourceInfo {
            id: self.id.clone(),
            title: self.title.clone(),
            url: self.url.clone(),
            disk_type: self.disk_type.clone(),
            channel: self.channel.clone(),
            password: self.password.clone(),
            created_at: self.created_at,
        }
    }
}

/// View of a vector of resources.
pub open spec fn infos_view(v: Seq<ResourceInfo>) -> Seq<ResourceInfoView> {
    v.map_values(|r: ResourceInfo| r@)
}

// ---------------------------------------------------------------------
// Trusted items
// ---------------------------------------------------------------------

/// A map from resource ids to resources.
pub type ResourceMap = DashMap<String, ResourceInfo>;

/// The entries of a resource map: each key with its resource.
pub uninterp spec fn map_entries(m: ResourceMap) -> Map<Seq<char>, ResourceInfoView>;

/// The 64-bit hash of a text with `std`'s `DefaultHasher::new()` (SipHash
/// with fixed keys, the same in every process).
pub uninterp spec fn spec_text_hash(s: Seq<char>) -> u64;

/// `DashMap::new`: an empty map.
#[verifier::external_body]
fn map_new() -> (r: ResourceMap)
    ensures
        map_entries(r).dom() == Set::<Seq<char>>::empty(),
{
    DashMap::new()
}

/// `DashMap::insert`: the key now maps to the value (a previous value for
/// it is replaced); nothing else changes.
#[verifier::external_body]
fn map_insert(m: &mut ResourceMap, key: String, value: ResourceInfo)
    ensures
        map_entries(*final(m)) == map_entries(*old(m)).insert(key@, value@),
{
    m.insert(key, value);
}

/// `DashMap::get`, with the resource copied out: the resource of the key,
/// if any.
#[verifier::external_body]
fn map_get(m: &ResourceMap, key: &str) -> (r: Option<ResourceInfo>)
    ensures
        match r {
            Some(v) => map_entries(*m).contains_key(key@) && map_entries(*m)[key@] == v@,
            None => !map_entries(*m).contains_key(key@),
        },
{
    m.get(key).map(|e| e.value().clone())
}

/// `DashMap::iter`, with the entries copied out: every entry once, in an
/// order the map does not specify.
#[verifier::external_body]
fn map_list(m: &ResourceMap) -> (r: Vec<(String, ResourceInfo)>)
    ensures
        r@.len() == map_entries(*m).dom().len(),
        forall|i: int|
            0 <= i < r@.len() ==> map_entries(*m).contains_key((#[trigger] r@[i]).0@)
                && map_entries(*m)[r@[i].0@] == r@[i].1@,
        (forall|i: int, j: int| 0 <= i < j < r@.len() ==> (#[trigger] r@[i]).0@ != (#[trigger] r@[j]).0@),
{
    m.iter().map(|e| (e.key().clone(), e.value().clone())).collect()
}

/// `std::hash::Hash` of a `str` fed to `DefaultHasher::new()`, then
/// `finish`: named `spec_text_hash`.
#[verifier::external_body]
fn text_hash(s: &str) -> (r: u64)
    ensures
        r == spec_text_hash(s@),
{
    let mut h = std::collections::hash_map::DefaultHasher::new();
    std::hash::Hash::hash(s, &mut h);
    std::hash::Hasher::finish(&h)
}


// ---------------------------------------------------------------------
// Short ids
// ---------------------------------------------------------------------

/// The smallest value whose hexadecimal form has 12 digits (16 to the 11th).
pub const SHORT_ID_MIN_HASH: u64 = 0x1000_0000_0000;

/// The short id of a hash: the first 12 digits of its lower-case
/// hexadecimal form.
pub open spec fn short_id_of(h: u64) -> Seq<char> {
    digits_in_base(h as nat, 16).take(12)
}

/// The short id of a URL: the short id of its hash, when that hash has at
/// least 12 hexadecimal digits.
pub open spec fn url_short_id(url: Seq<char>) -> Option<Seq<char>> {
    if spec_text_hash(url) >= SHORT_ID_MIN_HASH {
        Some(short_id_of(spec_text_hash(url)))
    } else {
        None
    }
}

/// Powers of 16.
pub open spec fn pow16(k: nat) -> nat
    decreases k,
{
    if k == 0 {
        1
    } else {
        16 * pow16((k - 1) as nat)
    }
}

proof fn lemma_digits_nonempty(n: nat)
    ensures
        digits_in_base(n, 16).len() >= 1,
    decreases n,
{
    if n >= 16 {
        assert(n / 16 < n) by (nonlinear_arith)
            requires
                n >= 16,
        ;
        lemma_digits_nonempty(n / 16);
    }
}

proof fn lemma_digits_len(n: nat, k: nat)
    requires
        n >= pow16(k),
    ensures
        digits_in_base(n, 16).len() >= k + 1,
    decreases k,
{
    if k == 0 {
        lemma_digits_nonempty(n);
    } else {
        let p = pow16((k - 1) as nat);
        assert(p >= 1) by {
            lemma_pow16_pos((k - 1) as nat);
        }
        assert(n >= 16 && n / 16 >= p) by (nonlinear_arith)
            requires
                n >= 16 * p,
                p >= 1,
        ;
        lemma_digits_len(n / 16, (k - 1) as nat);
    }
}

proof fn lemma_pow16_pos(k: nat)
    ensures
        pow16(k) >= 1,
    decreases k,
{
    if k > 0 {
        lemma_pow16_pos((k - 1) as nat);
    }
}

/// The short id of a hash with at least 12 hexadecimal digits.
pub fn short_id_of_hash(h: u64) -> (r: String)
    requires
        h >= SHORT_ID_MIN_HASH,
    ensures
        r@ == short_id_of(h),
{
    let mut v: Vec<char> = Vec::new();
    push_digits(&mut v, h, 16);
    proof {
        reveal_with_fuel(pow16, 12);
        assert(pow16(11) == SHORT_ID_MIN_HASH);
        lemma_digits_len(h as nat, 11);
        assert(v@ =~= digits_in_base(h as nat, 16));
    }
    let t = sub_chars(v.as_slice(), 0, 12);
    assert(t@ =~= short_id_of(h));
    string_of(t.as_slice())
}

/// The short id of a URL (see [`url_short_id`]); `None` when the URL's
/// hash has fewer than 12 hexadecimal digits.
pub fn short_id(url: &str) -> (r: Option<String>)
    ensures
        crate::model::opt_view(r) == url_short_id(url@),
{
    let h = text_hash(url);
    if h >= SHORT_ID_MIN_HASH {
        Some(short_id_of_hash(h))
    } else {
        None
    }
}

// ---------------------------------------------------------------------
// Popular keywords and related resources
// ---------------------------------------------------------------------

/// The keyword drawn from a trimmed title: its first 15 characters.
pub open spec fn title_keyword(t: Seq<char>) -> Seq<char> {
    if t.len() > 15 {
        t.take(15)
    } else {
        t
    }
}

/// The popular keywords drawn from titles taken in order: each non-empty
/// trimmed title gives its keyword, kept once; the walk stops as soon as
/// it has `n` keywords, and after the first keyword when `n` is 0.
pub open spec fn hot_keywords_of(titles: Seq<Seq<char>>, n: nat) -> Seq<Seq<char>>
    decreases titles.len(),
{
    if titles.len() == 0 {
        Seq::empty()
    } else {
        let prev = hot_keywords_of(titles.drop_last(), n);
        let t = spec_trim(titles.last());
        if (prev.len() >= n && prev.len() > 0) || t.len() == 0 {
            prev
        } else if prev.contains(title_keyword(t)) {
            prev
        } else {
            prev.push(title_keyword(t))
        }
    }
}

/// The resources related to resource `id` of channel `channel`, taken in
/// order: the first five of the same channel with another id.
pub open spec fn related_of(infos: Seq<ResourceInfoView>, channel: Seq<char>, id: Seq<char>) -> Seq<
    ResourceInfoView,
>
    decreases infos.len(),
{
    if infos.len() == 0 {
        Seq::empty()
    } else {
        let prev = related_of(infos.drop_last(), channel, id);
        let x = infos.last();
        if prev.len() < 5 && x.channel == channel && x.id != id {
            prev.push(x)
        } else {
            prev
        }
    }
}

/// `ps` lists the entries of `m`: each once, in some order.
pub open spec fn lists_entries(ps: Seq<(Seq<char>, ResourceInfoView)>, m: Map<Seq<char>, ResourceInfoView>) -> bool {
    &&& ps.len() == m.dom().len()
    &&& forall|i: int| 0 <= i < ps.len() ==> m.contains_key(#[trigger] ps[i].0) && m[ps[i].0] == ps[i].1
    &&& forall|i: int, j: int| 0 <= i < j < ps.len() ==> (#[trigger] ps[i]).0 != (#[trigger] ps[j]).0
}

/// The titles of listed entries.
pub open spec fn listed_titles(ps: Seq<(Seq<char>, ResourceInfoView)>) -> Seq<Seq<char>> {
    ps.map_values(|p: (Seq<char>, ResourceInfoView)| p.1.title)
}

/// The resources of listed entries.
pub open spec fn listed_infos(ps: Seq<(Seq<char>, ResourceInfoView)>) -> Seq<ResourceInfoView> {
    ps.map_values(|p: (Seq<char>, ResourceInfoView)| p.1)
}

/// View of listed entries.
pub open spec fn listing_view(v: Seq<(String, ResourceInfo)>) -> Seq<(Seq<char>, ResourceInfoView)> {
    v.map_values(|p: (String, ResourceInfo)| (p.0@, p.1@))
}

/// The popular keywords drawn from the titles of `infos` in order (see
/// [`hot_keywords_of`]).
pub fn hot_keywords_from(infos: &Vec<ResourceInfo>, n: usize) -> (r: Vec<String>)
    ensures
        r@.map_values(|s: String| s@) == hot_keywords_of(
            infos_view(infos@).map_values(|x: ResourceInfoView| x.title),
            n as nat,
        ),
{
    let ghost tv = infos_view(infos@).map_values(|x: ResourceInfoView| x.title);
    let mut out: Vec<String> = Vec::new();
    let mut i: usize = 0;
    while i < infos.len()
        invariant
            i <= infos@.len(),
            tv == infos_view(infos@).map_values(|x: ResourceInfoView| x.title),
            out@.map_values(|s: String| s@) == hot_keywords_of(tv.take(i as int), n as nat),
        decreases infos@.len() - i,
    {
        proof {
            assert(tv.take(i + 1).drop_last() =~= tv.take(i as int));
            assert(tv.take(i + 1).last() == infos@[i as int].title@);
        }
        let ghost ov = out@.map_values(|s: String| s@);
        if out.len() >= n && out.len() > 0 {
            proof {
                lemma_hot_keywords_stop(tv, n as nat, i as int);
            }
            assert(tv.take(tv.len() as int) =~= tv);
            return out;
        }
        let tc = chars_of(infos[i].title.as_str());
        let t = trim_chars(tc.as_slice());
        if t.len() > 0 {
            let kw = if t.len() > 15 { sub_chars(t.as_slice(), 0, 15) } else { t };
            assert(kw@ == title_keyword(spec_trim(tv[i as int]))) by {
                if t@.len() > 15 {
                    assert(kw@ =~= t@.take(15));
                }
            }
            let mut seen = false;
            let mut k: usize = 0;
            while k < out.len()
                invariant
                    k <= out@.len(),
                    ov == out@.map_values(|s: String| s@),
                    seen <==> exists|j: int| 0 <= j < k && ov[j] == kw@,
                decreases out@.len() - k,
            {
                let oc = chars_of(out[k].as_str());
                assert(ov[k as int] == oc@);
                if chars_eq(oc.as_slice(), kw.as_slice()) {
                    seen = true;
                }
                k = k + 1;
            }
            if !seen {
                out.push(string_of(kw.as_slice()));
                assert(out@.map_values(|s: String| s@) =~= ov.push(kw@));
            } else {
                assert(ov.contains(kw@));
            }
        }
        i = i + 1;
    }
    assert(tv.take(tv.len() as int) =~= tv);
    out
}

proof fn lemma_hot_keywords_stop(titles: Seq<Seq<char>>, n: nat, i: int)
    requires
        0 <= i <= titles.len(),
        hot_keywords_of(titles.take(i), n).len() >= n,
        hot_keywords_of(titles.take(i), n).len() > 0,
    ensures
        hot_keywords_of(titles, n) == hot_keywords_of(titles.take(i), n),
    decreases titles.len(),
{
    if titles.len() == i {
        assert(titles.take(i) =~= titles);
    } else {
        assert(titles.drop_last().take(i) =~= titles.take(i));
        lemma_hot_keywords_stop(titles.drop_last(), n, i);
    }
}

/// The resources related to resource `id` of channel `channel` among
/// `infos` in order (see [`related_of`]).
pub fn related_from(infos: &Vec<ResourceInfo>, channel: &str, id: &str) -> (r: Vec<ResourceInfo>)
    ensures
        infos_view(r@) == related_of(infos_view(infos@), channel@, id@),
{
    let ghost iv = infos_view(infos@);
    let mut out: Vec<ResourceInfo> = Vec::new();
    let mut i: usize = 0;
    while i < infos.len()
        invariant
            i <= infos@.len(),
            iv == infos_view(infos@),
            infos_view(out@) == related_of(iv.take(i as int), channel@, id@),
        decreases infos@.len() - i,
    {
        proof {
            assert(iv.take(i + 1).drop_last() =~= iv.take(i as int));
            assert(iv.take(i + 1).last() == infos@[i as int]@);
        }
        let x = &infos[i];
        if out.len() < 5 && str_eq(x.channel.as_str(), channel) && !str_eq(x.id.as_str(), id) {
            let ghost before = infos_view(out@);
            let d = x.duplicate();
            out.push(d);
            assert(infos_view(out@) =~= before.push(d@));
        }
        i = i + 1;
    }
    assert(iv.take(iv.len() as int) =~= iv);
    out
}

// ---------------------------------------------------------------------
// Newest resources
// ---------------------------------------------------------------------

/// Position at which `x` goes into `s` (newest first): after every
/// resource recorded no earlier than `x`, searching from `i`.
pub open spec fn newer_pos_from(s: Seq<ResourceInfoView>, x: ResourceInfoView, i: int) -> int
    decreases s.len() - i,
{
    if i >= s.len() || i < 0 {
        s.len() as int
    } else if s[i].created_at < x.created_at {
        i
    } else {
        newer_pos_from(s, x, i + 1)
    }
}

/// The resources of `s` ordered newest first; resources recorded at the
/// same time keep their relative order.
pub open spec fn newest_first(s: Seq<ResourceInfoView>) -> Seq<ResourceInfoView>
    decreases s.len(),
{
    if s.len() == 0 {
        s
    } else {
        let t = newest_first(s.drop_last());
        t.insert(newer_pos_from(t, s.last(), 0), s.last())
    }
}

/// The ids of the `n` newest resources of `s` (all of them when there are
/// fewer), newest first.
pub open spec fn newest_ids_of(s: Seq<ResourceInfoView>, n: nat) -> Seq<Seq<char>> {
    let t = newest_first(s);
    t.take(if n < t.len() { n as int } else { t.len() as int }).map_values(
        |r: ResourceInfoView| r.id,
    )
}

proof fn lemma_newer_pos_from(s: Seq<ResourceInfoView>, x: ResourceInfoView, i: int)
    requires
        0 <= i <= s.len(),
    ensures
        i <= newer_pos_from(s, x, i) <= s.len(),
        forall|k: int|
            i <= k < newer_pos_from(s, x, i) ==> (#[trigger] s[k]).created_at >= x.created_at,
        newer_pos_from(s, x, i) < s.len() ==> s[newer_pos_from(s, x, i)].created_at
            < x.created_at,
    decreases s.len() - i,
{
    if i < s.len() && s[i].created_at >= x.created_at {
        lemma_newer_pos_from(s, x, i + 1);
    }
}

/// Resources recorded later come first: the order is newest first, and no
/// resource is lost or added.
pub proof fn law_newest_first(s: Seq<ResourceInfoView>)
    ensures
        forall|i: int, j: int|
            0 <= i < j < newest_first(s).len() ==> (#[trigger] newest_first(s)[i]).created_at
                >= (#[trigger] newest_first(s)[j]).created_at,
        newest_first(s).to_multiset() == s.to_multiset(),
    decreases s.len(),
{
    broadcast use vstd::seq_lib::group_to_multiset_ensures;

    if s.len() > 0 {
        let t = newest_first(s.drop_last());
        law_newest_first(s.drop_last());
        let x = s.last();
        lemma_newer_pos_from(t, x, 0);
        let p = newer_pos_from(t, x, 0);
        let u = t.insert(p, x);
        t.insert_ensures(p, x);
        assert forall|i: int, j: int| 0 <= i < j < u.len() implies (#[trigger] u[i]).created_at
            >= (#[trigger] u[j]).created_at by {
            if j < p {
            } else if j == p {
            } else if i < p {
                assert(u[j] == t[j - 1]);
                if p < t.len() {
                    assert(t[p].created_at >= t[j - 1].created_at);
                }
            } else if i == p {
                assert(u[j] == t[j - 1]);
                assert(t[p].created_at >= t[j - 1].created_at);
            } else {
                assert(u[i] == t[i - 1]);
                assert(u[j] == t[j - 1]);
            }
        }
        assert(u.remove(p) =~= t);
        assert(u.to_multiset().remove(x) =~= t.to_multiset());
        assert(u.contains(x) && u[p] == x);
        assert(u.to_multiset().count(x) > 0);
        assert(s.drop_last().push(x) =~= s);
        assert(u.to_multiset() =~= t.to_multiset().insert(x));
    }
}

/// The ids of the `n` newest resources of `infos`, newest first (see
/// [`newest_ids_of`]).
pub fn newest_ids_from(infos: &Vec<ResourceInfo>, n: usize) -> (r: Vec<String>)
    ensures
        r@.map_values(|s: String| s@) == newest_ids_of(infos_view(infos@), n as nat),
{
    let ghost orig = infos_view(infos@);
    let mut out: Vec<ResourceInfo> = Vec::new();
    let mut i: usize = 0;
    while i < infos.len()
        invariant
            i <= infos@.len(),
            orig == infos_view(infos@),
            infos_view(out@) == newest_first(orig.take(i as int)),
        decreases infos@.len() - i,
    {
        let x = infos[i].duplicate();
        let ghost prev = infos_view(out@);
        let mut p: usize = 0;
        while p < out.len() && out[p].created_at >= x.created_at
            invariant
                infos_view(out@) == prev,
                p <= out@.len(),
                newer_pos_from(prev, x@, 0) == newer_pos_from(prev, x@, p as int),
            decreases out@.len() - p,
        {
            assert(prev[p as int] == out@[p as int]@);
            p = p + 1;
        }
        proof {
            if p < out@.len() {
                assert(prev[p as int] == out@[p as int]@);
            }
        }
        out.insert(p, x);
        proof {
            assert(orig.take(i + 1).drop_last() =~= orig.take(i as int));
            assert(orig.take(i + 1).last() == x@);
            assert(infos_view(out@) =~= prev.insert(p as int, x@));
        }
        i = i + 1;
    }
    assert(orig.take(orig.len() as int) =~= orig);
    let ghost t = newest_first(orig);
    let m: usize = if n < out.len() { n } else { out.len() };
    let mut r: Vec<String> = Vec::new();
    let mut j: usize = 0;
    while j < m
        invariant
            j <= m,
            m <= out@.len(),
            infos_view(out@) == t,
            r@.len() == j,
            forall|k: int| 0 <= k < j ==> (#[trigger] r@[k])@ == t[k].id,
        decreases m - j,
    {
        assert(t[j as int] == out@[j as int]@);
        r.push(out[j].id.clone());
        j = j + 1;
    }
    assert(r@.map_values(|s: String| s@) =~= newest_ids_of(orig, n as nat));
    r
}

// ---------------------------------------------------------------------
// The cache
// ---------------------------------------------------------------------

/// The recorded resources, by short id.
pub struct ResourceCache {
    resources: ResourceMap,
}

/// The resource recorded for a share link.
pub open spec fn info_for(
    id: Seq<char>,
    title: Seq<char>,
    url: Seq<char>,
    disk_type: Seq<char>,
    channel: Seq<char>,
    password: Seq<char>,
    created_at: i64,
) -> ResourceInfoView {
    ResourceInfoView { id, title, url, disk_type, channel, password, created_at }
}

/// The entries after recording resources in order, each under its id.
pub open spec fn restored(m: Map<Seq<char>, ResourceInfoView>, infos: Seq<ResourceInfoView>) -> Map<
    Seq<char>,
    ResourceInfoView,
>
    decreases infos.len(),
{
    if infos.len() == 0 {
        m
    } else {
        restored(m, infos.drop_last()).insert(infos.last().id, infos.last())
    }
}

impl ResourceCache {
    /// The recorded resources, by id.
    pub closed spec fn entries(&self) -> Map<Seq<char>, ResourceInfoView> {
        map_entries(self.resources)
    }

    /// An empty cache.
    pub fn new() -> (r: ResourceCache)
        ensures
            r.entries().dom() == Set::<Seq<char>>::empty(),
    {
        ResourceCache { resources: map_new() }
    }

    fn listing(&self) -> (r: Vec<(String, ResourceInfo)>)
        ensures
            lists_entries(listing_view(r@), self.entries()),
    {
        let r = map_list(&self.resources);
        assert(listing_view(r@).len() == r@.len());
        r
    }

    /// Records a resource created at `created_at` (Unix seconds) under the
    /// short id of its URL, replacing a resource with the same id; returns
    /// the id. Nothing is recorded, and `None` returned, when the URL has
    /// no short id.
    pub fn insert_at(
        &mut self,
        title: &str,
        url: &str,
        disk_type: &str,
        channel: &str,
        password: &str,
        created_at: i64,
    ) -> (r: Option<String>)
        ensures
            crate::model::opt_view(r) == url_short_id(url@),
            match url_short_id(url@) {
                Some(id) => final(self).entries() == old(self).entries().insert(
                    id,
                    info_for(id, title@, url@, disk_type@, channel@, password@, created_at),
                ),
                None => final(self).entries() == old(self).entries(),
            },
    {
        match short_id(url) {
            None => None,
            Some(id) => {
                let info = ResourceInfo {
                    id: id.clone(),
                    title: title.to_owned(),
                    url: url.to_owned(),
                    disk_type: disk_type.to_owned(),
                    channel: channel.to_owned(),
                    password: password.to_owned(),
                    created_at,
                };
                map_insert(&mut self.resources, id.clone(), info);
                Some(id)
            },
        }
    }

    /// Records a resource now (see [`ResourceCache::insert_at`]); the time
    /// recorded is the clock's.
    pub fn insert(
        &mut self,
        title: &str,
        url: &str,
        disk_type: &str,
        channel: &str,
        password: &str,
    ) -> (r: Option<String>)
        ensures
            crate::model::opt_view(r) == url_short_id(url@),
            match url_short_id(url@) {
                Some(id) => exists|t: i64|
                    final(self).entries() == old(self).entries().insert(
                        id,
                        #[trigger] info_for(id, title@, url@, disk_type@, channel@, password@, t),
                    ),
                None => final(self).entries() == old(self).entries(),
            },
    {
        let t = now_secs();
        let r = self.insert_at(title, url, disk_type, channel, password, t);
        proof {
            if let Some(id) = url_short_id(url@) {
                assert(final(self).entries() == old(self).entries().insert(
                    id,
                    info_for(id, title@, url@, disk_type@, channel@, password@, t),
                ));
            }
        }
        r
    }

    /// The resource recorded under `id`, if any.
    pub fn get(&self, id: &str) -> (r: Option<ResourceInfo>)
        ensures
            match r {
                Some(v) => self.entries().contains_key(id@) && self.entries()[id@] == v@,
                None => !self.entries().contains_key(id@),
            },
    {
        map_get(&self.resources, id)
    }

    /// Records resources read back from storage, in order, each under its
    /// own id.
    pub fn restore(&mut self, infos: Vec<ResourceInfo>)
        ensures
            final(self).entries() == restored(old(self).entries(), infos_view(infos@)),
    {
        let ghost iv = infos_view(infos@);
        let ghost start = self.entries();
        let mut i: usize = 0;
        while i < infos.len()
            invariant
                i <= infos@.len(),
                iv == infos_view(infos@),
                self.entries() == restored(start, iv.take(i as int)),
            decreases infos@.len() - i,
        {
            proof {
                assert(iv.take(i + 1).drop_last() =~= iv.take(i as int));
                assert(iv.take(i + 1).last() == infos@[i as int]@);
            }
            let x = infos[i].duplicate();
            map_insert(&mut self.resources, x.id.clone(), x);
            i = i + 1;
        }
        assert(iv.take(iv.len() as int) =~= iv);
    }

    /// Every recorded resource once, in an order the map does not specify.
    pub fn all_resources(&self) -> (r: Vec<ResourceInfo>)
        ensures
            exists|ps: Seq<(Seq<char>, ResourceInfoView)>|
                lists_entries(ps, self.entries()) && infos_view(r@) == #[trigger] listed_infos(ps),
    {
        let l = self.listing();
        let ghost lv = listing_view(l@);
        let mut out: Vec<ResourceInfo> = Vec::new();
        let mut i: usize = 0;
        while i < l.len()
            invariant
                i <= l@.len(),
                lv == listing_view(l@),
                infos_view(out@) == listed_infos(lv).take(i as int),
            decreases l@.len() - i,
        {
            let ghost before = infos_view(out@);
            let d = l[i].1.duplicate();
            assert(listed_infos(lv)[i as int] == d@);
            out.push(d);
            assert(infos_view(out@) =~= before.push(d@));
            assert(infos_view(out@) =~= listed_infos(lv).take(i + 1));
            i = i + 1;
        }
        assert(listed_infos(lv).take(l@.len() as int) =~= listed_infos(lv));
        out
    }

    /// The ids of the recorded resources, each once, in an order the map
    /// does not specify.
    pub fn all_ids(&self) -> (r: Vec<String>)
        ensures
            r@.len() == self.entries().dom().len(),
            forall|i: int| 0 <= i < r@.len() ==> self.entries().contains_key(#[trigger] r@[i]@),
            forall|i: int, j: int| 0 <= i < j < r@.len() ==> (#[trigger] r@[i])@ != (#[trigger] r@[j])@,
    {
        let l = self.listing();
        let ghost lv = listing_view(l@);
        let mut out: Vec<String> = Vec::new();
        let mut i: usize = 0;
        while i < l.len()
            invariant
                i <= l@.len(),
                lv == listing_view(l@),
                lists_entries(lv, self.entries()),
                out@.len() == i,
                forall|k: int| 0 <= k < i ==> (#[trigger] out@[k])@ == lv[k].0,
            decreases l@.len() - i,
        {
            out.push(l[i].0.clone());
            i = i + 1;
        }
        proof {
            assert forall|a: int, b: int| 0 <= a < b < out@.len() implies (#[trigger] out@[a])@
                != (#[trigger] out@[b])@ by {
                assert(lv[a].0 != lv[b].0);
            }
            assert forall|a: int| 0 <= a < out@.len() implies self.entries().contains_key(
                #[trigger] out@[a]@,
            ) by {
                assert(self.entries().contains_key(lv[a].0));
            }
        }
        out
    }

    /// The ids of the `n` newest resources, newest first (see
    /// [`newest_ids_of`]); resources recorded at the same time come in an
    /// order the map does not specify.
    pub fn newest_ids(&self, n: usize) -> (r: Vec<String>)
        ensures
            exists|ps: Seq<(Seq<char>, ResourceInfoView)>|
                lists_entries(ps, self.entries()) && r@.map_values(|s: String| s@)
                    == newest_ids_of(#[trigger] listed_infos(ps), n as nat),
    {
        let infos = self.all_resources();
        let ghost ps = choose|ps: Seq<(Seq<char>, ResourceInfoView)>|
            lists_entries(ps, self.entries()) && infos_view(infos@) == #[trigger] listed_infos(ps);
        newest_ids_from(&infos, n)
    }

    /// Up to `n` popular keywords, drawn from the titles of the resources
    /// walked in an order the map does not specify (see [`hot_keywords_of`]).
    pub fn hot_keywords(&self, n: usize) -> (r: Vec<String>)
        ensures
            exists|ps: Seq<(Seq<char>, ResourceInfoView)>|
                lists_entries(ps, self.entries()) && r@.map_values(|s: String| s@)
                    == hot_keywords_of(#[trigger] listed_titles(ps), n as nat),
    {
        let infos = self.all_resources();
        let ghost ps = choose|ps: Seq<(Seq<char>, ResourceInfoView)>|
            lists_entries(ps, self.entries()) && infos_view(infos@) == #[trigger] listed_infos(ps);
        let r = hot_keywords_from(&infos, n);
        assert(infos_view(infos@).map_values(|x: ResourceInfoView| x.title) =~= listed_titles(ps));
        r
    }

    /// The resources related to resource `id` of channel `channel` (see
    /// [`related_of`]), the resources walked in an order the map does not
    /// specify.
    pub fn related(&self, channel: &str, id: &str) -> (r: Vec<ResourceInfo>)
        ensures
            exists|ps: Seq<(Seq<char>, ResourceInfoView)>|
                lists_entries(ps, self.entries()) && infos_view(r@) == related_of(
                    #[trigger] listed_infos(ps),
                    channel@,
                    id@,
                ),
    {
        let infos = self.all_resources();
        let ghost ps = choose|ps: Seq<(Seq<char>, ResourceInfoView)>|
            lists_entries(ps, self.entries()) && infos_view(infos@) == #[trigger] listed_infos(ps);
        related_from(&infos, channel, id)
    }
}


/// A short id has exactly 12 characters.
pub proof fn law_short_id_length(h: u64)
    requires
        h >= SHORT_ID_MIN_HASH,
    ensures
        short_id_of(h).len() == 12,
{
    reveal_with_fuel(pow16, 12);
    assert(pow16(11) == SHORT_ID_MIN_HASH);
    lemma_digits_len(h as nat, 11);
}

/// The popular keywords are distinct, non-empty, at most 15 characters
/// long, and there are at most `n` of them (one when `n` is 0).
pub proof fn law_hot_keywords_shape(titles: Seq<Seq<char>>, n: nat)
    ensures
        hot_keywords_of(titles, n).no_duplicates(),
        hot_keywords_of(titles, n).len() <= if n == 0 { 1 } else { n },
        forall|i: int|
            0 <= i < hot_keywords_of(titles, n).len() ==> 0 < (#[trigger] hot_keywords_of(titles, n)[i]).len() <= 15,
    decreases titles.len(),
{
    if titles.len() > 0 {
        law_hot_keywords_shape(titles.drop_last(), n);
        let prev = hot_keywords_of(titles.drop_last(), n);
        let t = spec_trim(titles.last());
        if !((prev.len() >= n && prev.len() > 0) || t.len() == 0) && !prev.contains(title_keyword(t)) {
            let r = prev.push(title_keyword(t));
            assert forall|a: int, b: int| 0 <= a < b < r.len() implies r[a] != r[b] by {
                if b == r.len() - 1 {
                    assert(prev[a] == r[a]);
                }
            }
            assert(title_keyword(t).len() > 0);
        }
    }
}

/// What is recorded under an id is what a lookup of that id gives back,
/// and recording under one id leaves the others as they were.
pub proof fn law_resource_read_after_write(
    m: Map<Seq<char>, ResourceInfoView>,
    id: Seq<char>,
    v: ResourceInfoView,
    other: Seq<char>,
)
    requires
        other != id,
    ensures
        m.insert(id, v).contains_key(id) && m.insert(id, v)[id] == v,
        m.insert(id, v).contains_key(other) == m.contains_key(other),
        m.contains_key(other) ==> m.insert(id, v)[other] == m[other],
{
}

} // verus!
