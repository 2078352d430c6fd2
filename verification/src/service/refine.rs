//! What a search answer shows for a request: the plugins that are asked,
//! only the links of the asked drive kinds, and the links grouped by drive
//! kind.
use vstd::prelude::*;
use crate::model::{
    groups_view, strs_view, LinkView, MergedLink, MergedLinkView, SearchRequest, SearchResponse,
    SearchResponseView, SearchResult, SearchResultView, TypeLinks, TypeLinksView, links_view,
    results_view,
};
use crate::model::Link;
use crate::text::str_eq;

verus! {

broadcast use vstd::string::group_string_axioms;

/// Whether `s` is one of `v`.
pub fn str_in(s: &str, v: &Vec<String>) -> (r: bool)
    ensures
        r == strs_view(v@).contains(s@),
{
    let mut i: usize = 0;
    while i < v.len()
        invariant
            i <= v@.len(),
            forall|k: int| 0 <= k < i ==> strs_view(v@)[k] != s@,
        decreases v@.len() - i,
    {
        if str_eq(v[i].as_str(), s) {
            assert(strs_view(v@)[i as int] == s@);
            return true;
        }
        i = i + 1;
    }
    false
}

// ---------------------------------------------------------------------
// Plugins
// ---------------------------------------------------------------------

/// Whether the plugin named `name` is queried for a request that names the
/// plugins `wanted`: every plugin when none is named, else the named ones.
pub open spec fn plugin_wanted_of(name: Seq<char>, wanted: Seq<Seq<char>>) -> bool {
    wanted.len() == 0 || wanted.contains(name)
}

/// Whether the plugin named `name` is queried (see [`plugin_wanted_of`]).
pub fn plugin_wanted(name: &str, wanted: &Vec<String>) -> (r: bool)
    ensures
        r == plugin_wanted_of(name@, strs_view(wanted@)),
{
    wanted.len() == 0 || str_in(name, wanted)
}

// ---------------------------------------------------------------------
// Drive kinds asked for
// ---------------------------------------------------------------------

/// The links of `ls` whose drive kind is one of `kinds`, in order.
pub open spec fn links_of_kinds(ls: Seq<LinkView>, kinds: Seq<Seq<char>>) -> Seq<LinkView>
    decreases ls.len(),
{
    if ls.len() == 0 {
        ls
    } else {
        let p = links_of_kinds(ls.drop_last(), kinds);
        if kinds.contains(ls.last().disk_type) {
            p.push(ls.last())
        } else {
            p
        }
    }
}

/// Each result of `rs` with only its links of the drive kinds `kinds`;
/// the results left with no link are dropped.
pub open spec fn results_of_kinds(rs: Seq<SearchResultView>, kinds: Seq<Seq<char>>) -> Seq<
    SearchResultView,
>
    decreases rs.len(),
{
    if rs.len() == 0 {
        rs
    } else {
        let p = results_of_kinds(rs.drop_last(), kinds);
        let ls = links_of_kinds(rs.last().links, kinds);
        if ls.len() == 0 {
            p
        } else {
            p.push(SearchResultView { links: ls, ..rs.last() })
        }
    }
}

/// The results shown for the drive kinds `kinds`: all of them when no kind
/// is named, else [`results_of_kinds`].
pub open spec fn kept_results(rs: Seq<SearchResultView>, kinds: Seq<Seq<char>>) -> Seq<
    SearchResultView,
> {
    if kinds.len() == 0 {
        rs
    } else {
        results_of_kinds(rs, kinds)
    }
}

fn links_of_kinds_exec(ls: &Vec<Link>, kinds: &Vec<String>) -> (r: Vec<Link>)
    ensures
        links_view(r@) == links_of_kinds(links_view(ls@), strs_view(kinds@)),
{
    let ghost lv = links_view(ls@);
    let mut out: Vec<Link> = Vec::new();
    let mut i: usize = 0;
    while i < ls.len()
        invariant
            i <= ls@.len(),
            lv == links_view(ls@),
            links_view(out@) == links_of_kinds(lv.take(i as int), strs_view(kinds@)),
        decreases ls@.len() - i,
    {
        proof {
            assert(lv.take(i + 1).drop_last() =~= lv.take(i as int));
            assert(lv.take(i + 1).last() == ls@[i as int]@);
        }
        if str_in(ls[i].disk_type.as_str(), kinds) {
            let ghost before = links_view(out@);
            out.push(ls[i].duplicate());
            assert(links_view(out@) =~= before.push(ls@[i as int]@));
        }
        i = i + 1;
    }
    assert(lv.take(lv.len() as int) =~= lv);
    out
}

fn results_of_kinds_exec(rs: &Vec<SearchResult>, kinds: &Vec<String>) -> (r: Vec<SearchResult>)
    ensures
        results_view(r@) == results_of_kinds(results_view(rs@), strs_view(kinds@)),
{
    let ghost rv = results_view(rs@);
    let mut out: Vec<SearchResult> = Vec::new();
    let mut i: usize = 0;
    while i < rs.len()
        invariant
            i <= rs@.len(),
            rv == results_view(rs@),
            results_view(out@) == results_of_kinds(rv.take(i as int), strs_view(kinds@)),
        decreases rs@.len() - i,
    {
        proof {
            assert(rv.take(i + 1).drop_last() =~= rv.take(i as int));
            assert(rv.take(i + 1).last() == rs@[i as int]@);
        }
        let ls = links_of_kinds_exec(&rs[i].links, kinds);
        if ls.len() > 0 {
            let ghost before = results_view(out@);
            let mut d = rs[i].duplicate();
            d.links = ls;
            out.push(d);
            assert(results_view(out@) =~= before.push(
                SearchResultView { links: links_view(ls@), ..rs@[i as int]@ },
            ));
        }
        i = i + 1;
    }
    assert(rv.take(rv.len() as int) =~= rv);
    out
}

/// When drive kinds are named, every link shown is of a named kind and
/// every result shown keeps at least one link.
pub proof fn law_kept_links_of_asked_kinds(rs: Seq<SearchResultView>, kinds: Seq<Seq<char>>)
    requires
        kinds.len() > 0,
    ensures
        forall|i: int|
            0 <= i < kept_results(rs, kinds).len() ==> (#[trigger] kept_results(rs, kinds)[i]).links.len()
                > 0,
        forall|i: int, j: int|
            0 <= i < kept_results(rs, kinds).len() && 0 <= j < kept_results(rs, kinds)[i].links.len()
                ==> kinds.contains(#[trigger] kept_results(rs, kinds)[i].links[j].disk_type),
    decreases rs.len(),
{
    if rs.len() > 0 {
        law_kept_links_of_asked_kinds(rs.drop_last(), kinds);
        lemma_links_of_kinds(rs.last().links, kinds);
    }
}

proof fn lemma_links_of_kinds(ls: Seq<LinkView>, kinds: Seq<Seq<char>>)
    ensures
        forall|j: int|
            0 <= j < links_of_kinds(ls, kinds).len() ==> kinds.contains(
                #[trigger] links_of_kinds(ls, kinds)[j].disk_type,
            ),
    decreases ls.len(),
{
    if ls.len() > 0 {
        lemma_links_of_kinds(ls.drop_last(), kinds);
    }
}

// ---------------------------------------------------------------------
// Links grouped by drive kind
// ---------------------------------------------------------------------

/// A link of result `r` as listed in the grouping.
pub open spec fn merged_link_of(r: SearchResultView, l: LinkView) -> MergedLinkView {
    MergedLinkView {
        url: l.url,
        password: l.password,
        note: r.title,
        datetime: r.datetime,
        source: r.channel,
    }
}

/// The links of a result, each with its drive kind.
pub open spec fn kinded_of(r: SearchResultView) -> Seq<(Seq<char>, MergedLinkView)> {
    r.links.map_values(|l: LinkView| (l.disk_type, merged_link_of(r, l)))
}

/// The links of the results, in order, each with its drive kind.
pub open spec fn kinded_links(rs: Seq<SearchResultView>) -> Seq<(Seq<char>, MergedLinkView)>
    decreases rs.len(),
{
    if rs.len() == 0 {
        Seq::empty()
    } else {
        kinded_links(rs.drop_last()) + kinded_of(rs.last())
    }
}

/// The drive kinds of `ks`, each once, in order of first appearance.
pub open spec fn kinds_in_order(ks: Seq<(Seq<char>, MergedLinkView)>) -> Seq<Seq<char>>
    decreases ks.len(),
{
    if ks.len() == 0 {
        Seq::empty()
    } else {
        let p = kinds_in_order(ks.drop_last());
        if p.contains(ks.last().0) {
            p
        } else {
            p.push(ks.last().0)
        }
    }
}

/// The links of `ks` of drive kind `dt`, in order.
pub open spec fn links_of_kind(ks: Seq<(Seq<char>, MergedLinkView)>, dt: Seq<char>) -> Seq<
    MergedLinkView,
>
    decreases ks.len(),
{
    if ks.len() == 0 {
        Seq::empty()
    } else {
        let p = links_of_kind(ks.drop_last(), dt);
        if ks.last().0 == dt {
            p.push(ks.last().1)
        } else {
            p
        }
    }
}

/// The links of the results grouped by drive kind: one group per kind, in
/// order of the kind's first appearance, each with the links of that kind
/// in order.
pub open spec fn grouped_by_kind(rs: Seq<SearchResultView>) -> Seq<TypeLinksView> {
    let ks = kinded_links(rs);
    kinds_in_order(ks).map_values(
        |dt: Seq<char>| TypeLinksView { disk_type: dt, links: links_of_kind(ks, dt) },
    )
}

/// The groups have distinct drive kinds.
pub proof fn law_group_kinds_distinct(rs: Seq<SearchResultView>)
    ensures
        forall|i: int, j: int|
            0 <= i < j < grouped_by_kind(rs).len() ==> (#[trigger] grouped_by_kind(rs)[i]).disk_type
                != (#[trigger] grouped_by_kind(rs)[j]).disk_type,
{
    lemma_kinds_distinct(kinded_links(rs));
}

proof fn lemma_kinds_distinct(ks: Seq<(Seq<char>, MergedLinkView)>)
    ensures
        forall|i: int, j: int|
            0 <= i < j < kinds_in_order(ks).len() ==> (#[trigger] kinds_in_order(ks)[i])
                != (#[trigger] kinds_in_order(ks)[j]),
    decreases ks.len(),
{
    if ks.len() > 0 {
        lemma_kinds_distinct(ks.drop_last());
        let p = kinds_in_order(ks.drop_last());
        if !p.contains(ks.last().0) {
            let q = p.push(ks.last().0);
            assert forall|i: int, j: int| 0 <= i < j < q.len() implies #[trigger] q[i] != #[trigger] q[j] by {
                if j == p.len() {
                    assert(q[i] == p[i]);
                } else {
                    assert(q[i] == p[i] && q[j] == p[j]);
                }
            }
        }
    }
}

/// View of links with their kinds.
pub open spec fn kinded_view(v: Seq<(String, MergedLink)>) -> Seq<(Seq<char>, MergedLinkView)> {
    v.map_values(|p: (String, MergedLink)| (p.0@, p.1@))
}

fn kinded_links_exec(rs: &Vec<SearchResult>) -> (r: Vec<(String, MergedLink)>)
    ensures
        kinded_view(r@) == kinded_links(results_view(rs@)),
{
    let ghost rv = results_view(rs@);
    let mut out: Vec<(String, MergedLink)> = Vec::new();
    let mut i: usize = 0;
    while i < rs.len()
        invariant
            i <= rs@.len(),
            rv == results_view(rs@),
            kinded_view(out@) == kinded_links(rv.take(i as int)),
        decreases rs@.len() - i,
    {
        let r = &rs[i];
        let ghost base = kinded_view(out@);
        let ghost kr = kinded_of(r@);
        let mut j: usize = 0;
        while j < r.links.len()
            invariant
                j <= r.links@.len(),
                kr == kinded_of(r@),
                kinded_view(out@) == base + kr.take(j as int),
            decreases r.links@.len() - j,
        {
            let l = &r.links[j];
            let m = MergedLink {
                url: l.url.clone(),
                password: l.password.clone(),
                note: r.title.clone(),
                datetime: r.datetime,
                source: r.channel.clone(),
            };
            let ghost before = kinded_view(out@);
            out.push((l.disk_type.clone(), m));
            proof {
                assert(kr[j as int] == (l@.disk_type, merged_link_of(r@, l@)));
                assert(kinded_view(out@) =~= before.push(kr[j as int]));
                assert(kr.take(j + 1) =~= kr.take(j as int).push(kr[j as int]));
            }
            j = j + 1;
        }
        proof {
            assert(kr.take(kr.len() as int) =~= kr);
            assert(rv.take(i + 1).drop_last() =~= rv.take(i as int));
            assert(rv.take(i + 1).last() == r@);
        }
        i = i + 1;
    }
    assert(rv.take(rv.len() as int) =~= rv);
    out
}

fn kinds_in_order_exec(ks: &Vec<(String, MergedLink)>) -> (r: Vec<String>)
    ensures
        strs_view(r@) == kinds_in_order(kinded_view(ks@)),
{
    let ghost kv = kinded_view(ks@);
    let mut out: Vec<String> = Vec::new();
    let mut i: usize = 0;
    while i < ks.len()
        invariant
            i <= ks@.len(),
            kv == kinded_view(ks@),
            strs_view(out@) == kinds_in_order(kv.take(i as int)),
        decreases ks@.len() - i,
    {
        proof {
            assert(kv.take(i + 1).drop_last() =~= kv.take(i as int));
            assert(kv.take(i + 1).last() == kv[i as int]);
        }
        if !str_in(ks[i].0.as_str(), &out) {
            let ghost before = strs_view(out@);
            out.push(ks[i].0.clone());
            assert(strs_view(out@) =~= before.push(kv[i as int].0));
        }
        i = i + 1;
    }
    assert(kv.take(kv.len() as int) =~= kv);
    out
}

fn links_of_kind_exec(ks: &Vec<(String, MergedLink)>, dt: &str) -> (r: Vec<MergedLink>)
    ensures
        r@.map_values(|l: MergedLink| l@) == links_of_kind(kinded_view(ks@), dt@),
{
    let ghost kv = kinded_view(ks@);
    let mut out: Vec<MergedLink> = Vec::new();
    let mut i: usize = 0;
    while i < ks.len()
        invariant
            i <= ks@.len(),
            kv == kinded_view(ks@),
            out@.map_values(|l: MergedLink| l@) == links_of_kind(kv.take(i as int), dt@),
        decreases ks@.len() - i,
    {
        proof {
            assert(kv.take(i + 1).drop_last() =~= kv.take(i as int));
            assert(kv.take(i + 1).last() == kv[i as int]);
        }
        if str_eq(ks[i].0.as_str(), dt) {
            let ghost before = out@.map_values(|l: MergedLink| l@);
            out.push(ks[i].1.duplicate());
            assert(out@.map_values(|l: MergedLink| l@) =~= before.push(kv[i as int].1));
        }
        i = i + 1;
    }
    assert(kv.take(kv.len() as int) =~= kv);
    out
}

/// Groups the links of `rs` by drive kind (see [`grouped_by_kind`]).
pub fn group_by_kind(rs: &Vec<SearchResult>) -> (r: Vec<TypeLinks>)
    ensures
        groups_view(r@) == grouped_by_kind(results_view(rs@)),
{
    let ks = kinded_links_exec(rs);
    let kinds = kinds_in_order_exec(&ks);
    let ghost kv = kinded_view(ks@);
    let ghost want = grouped_by_kind(results_view(rs@));
    let mut out: Vec<TypeLinks> = Vec::new();
    let mut g: usize = 0;
    while g < kinds.len()
        invariant
            g <= kinds@.len(),
            kv == kinded_view(ks@),
            kv == kinded_links(results_view(rs@)),
            strs_view(kinds@) == kinds_in_order(kv),
            want == grouped_by_kind(results_view(rs@)),
            want.len() == kinds@.len(),
            out@.len() == g,
            forall|k: int| 0 <= k < g ==> #[trigger] out@[k]@ == want[k],
        decreases kinds@.len() - g,
    {
        let links = links_of_kind_exec(&ks, kinds[g].as_str());
        out.push(TypeLinks { disk_type: kinds[g].clone(), links });
        proof {
            assert(strs_view(kinds@)[g as int] == kinds@[g as int]@);
        }
        g = g + 1;
    }
    assert(groups_view(out@) =~= want);
    out
}

// ---------------------------------------------------------------------
// The answer as shown
// ---------------------------------------------------------------------

/// The answer `v` as shown for request `req`: the results of the asked
/// drive kinds (see [`kept_results`]) and their number, and their links
/// grouped by drive kind unless the request asks for the results alone
/// (`result_type` is `results`).
pub open spec fn shaped(v: SearchResponseView, req: SearchRequest) -> SearchResponseView {
    let rs = kept_results(v.results, strs_view(req.cloud_types@));
    SearchResponseView {
        total: rs.len() as usize,
        cache_hit: v.cache_hit,
        results: rs,
        merged_by_type: if req.result_type@ == "results"@ {
            None
        } else {
            Some(grouped_by_kind(rs))
        },
    }
}

/// Shapes an answer for a request (see [`shaped`]).
pub fn shape_response(resp: SearchResponse, req: &SearchRequest) -> (r: SearchResponse)
    ensures
        r@ == shaped(resp@, *req),
{
    let results = if req.cloud_types.len() == 0 {
        resp.results
    } else {
        results_of_kinds_exec(&resp.results, &req.cloud_types)
    };
    let total = results.len();
    let merged_by_type = if str_eq(req.result_type.as_str(), "results") {
        None
    } else {
        Some(group_by_kind(&results))
    };
    SearchResponse { total, cache_hit: resp.cache_hit, results, merged_by_type }
}

} // verus!
