//! The server-rendered search page: the links of the results, grouped by
//! drive kind and paginated.
use vstd::prelude::*;
use crate::model::{Link, LinkView, SearchResult, SearchResultView, results_view};
use crate::constants::{DiskType, all_disk_types, disk_type_name};
use crate::handlers::{type_friendly, type_friendly_of, param_of, params_view, parse_usize, parse_usize_of, query_get};
use crate::model::{SearchRequest, strs_view, clone_strings};
use crate::text::{chars_eq, chars_of, str_eq, spec_trim, str_trim};

verus! {

broadcast use vstd::string::group_string_axioms;

/// The date (`%Y-%m-%d`, UTC) of a Unix time in milliseconds, as `chrono`
/// formats it.
pub uninterp spec fn spec_format_date(ms: i64) -> Seq<char>;

/// `chrono::DateTime::from_timestamp_millis` formatted with `%Y-%m-%d`
/// (the empty string when out of range): named `spec_format_date`.
#[verifier::external_body]
pub(crate) fn format_date(ms: i64) -> (r: String)
    ensures
        r@ == spec_format_date(ms),
{
    chrono::DateTime::from_timestamp_millis(ms).map(|d| d.format("%Y-%m-%d").to_string()).unwrap_or_default()
}

/// Number of links on one page.
pub const PAGE_SIZE: usize = 20;

/// One link shown on the page, with the result it came from.
#[derive(Debug)]
pub struct LinkItem {
    pub url: String,
    pub password: String,
    pub title: String,
    pub source: String,
    pub datetime: String,
    pub disk_type: String,
}

/// Mathematical view of a [`LinkItem`].
pub struct LinkItemView {
    pub url: Seq<char>,
    pub password: Seq<char>,
    pub title: Seq<char>,
    pub source: Seq<char>,
    pub datetime: Seq<char>,
    pub disk_type: Seq<char>,
}

impl View for LinkItem {
    type V = LinkItemView;

    open spec fn view(&self) -> LinkItemView {
        LinkItemView {
            url: self.url@,
            password: self.password@,
            title: self.title@,
            source: self.source@,
            datetime: self.datetime@,
            disk_type: self.disk_type@,
        }
    }
}

impl LinkItem {
    /// Copies this item.
    pub fn duplicate(&self) -> (r: LinkItem)
        ensures
            r@ == self@,
    {
        LinkItem {
            url: self.url.clone(),
            password: self.password.clone(),
            title: self.title.clone(),
            source: self.source.clone(),
            datetime: self.datetime.clone(),
            disk_type: self.disk_type.clone(),
        }
    }
}

/// View of a vector of items.
pub open spec fn items_view(v: Seq<LinkItem>) -> Seq<LinkItemView> {
    v.map_values(|i: LinkItem| i@)
}

/// A drive kind with the number of links of that kind.
#[derive(Debug)]
pub struct TypeGroup {
    pub disk_type: String,
    pub label: String,
    pub count: usize,
}

/// A drive kind with the links of that kind on the current page.
#[derive(Debug)]
pub struct TypeGroupWithLinks {
    pub disk_type: String,
    pub label: String,
    pub links: Vec<LinkItem>,
}

/// The item shown for link `l` of result `r`.
pub open spec fn item_of(r: SearchResultView, l: LinkView) -> LinkItemView {
    LinkItemView {
        url: l.url,
        password: l.password,
        title: r.title,
        source: r.channel,
        datetime: spec_format_date(r.datetime),
        disk_type: l.disk_type,
    }
}

/// Whether some item has URL `u`.
pub open spec fn has_url(items: Seq<LinkItemView>, u: Seq<char>) -> bool {
    exists|i: int| 0 <= i < items.len() && items[i].url == u
}

/// `acc` followed by the items of the links `ls` of `r` whose URLs are new.
pub open spec fn add_links(acc: Seq<LinkItemView>, r: SearchResultView, ls: Seq<LinkView>) -> Seq<
    LinkItemView,
>
    decreases ls.len(),
{
    if ls.len() == 0 {
        acc
    } else {
        let a = add_links(acc, r, ls.drop_last());
        if has_url(a, ls.last().url) {
            a
        } else {
            a.push(item_of(r, ls.last()))
        }
    }
}

/// The items of all links of the results, in order, each URL once (at its
/// first occurrence).
pub open spec fn page_items_of(rs: Seq<SearchResultView>) -> Seq<LinkItemView>
    decreases rs.len(),
{
    if rs.len() == 0 {
        Seq::empty()
    } else {
        add_links(page_items_of(rs.drop_last()), rs.last(), rs.last().links)
    }
}

/// Whether `item` shows link `l` of result `r`: the link's URL, password
/// and drive kind, the result's title and source channel, and the day of
/// the result's time.
pub open spec fn shows_link(item: LinkItemView, r: SearchResultView, l: LinkView) -> bool {
    &&& item.url == l.url
    &&& item.password == l.password
    &&& item.disk_type == l.disk_type
    &&& item.title == r.title
    &&& item.source == r.channel
    &&& item.datetime == spec_format_date(r.datetime)
}

/// Whether `item` shows one of the links `ls` of result `r`.
pub open spec fn shows_one_of(item: LinkItemView, r: SearchResultView, ls: Seq<LinkView>) -> bool {
    exists|b: int| 0 <= b < ls.len() && #[trigger] shows_link(item, r, ls[b])
}

/// Whether `item` shows a link of one of the results `rs`.
pub open spec fn shows_result_link(item: LinkItemView, rs: Seq<SearchResultView>) -> bool {
    exists|a: int| 0 <= a < rs.len() && #[trigger] shows_one_of(item, rs[a], rs[a].links)
}

proof fn lemma_add_links_show(acc: Seq<LinkItemView>, r: SearchResultView, ls: Seq<LinkView>)
    ensures
        add_links(acc, r, ls).len() >= acc.len(),
        forall|i: int| 0 <= i < acc.len() ==> #[trigger] add_links(acc, r, ls)[i] == acc[i],
        forall|i: int|
            acc.len() <= i < add_links(acc, r, ls).len() ==> shows_one_of(
                #[trigger] add_links(acc, r, ls)[i],
                r,
                ls,
            ),
        forall|b: int| 0 <= b < ls.len() ==> has_url(add_links(acc, r, ls), #[trigger] ls[b].url),
        forall|u: Seq<char>| has_url(acc, u) ==> #[trigger] has_url(add_links(acc, r, ls), u),
    decreases ls.len(),
{
    if ls.len() > 0 {
        let d = ls.drop_last();
        lemma_add_links_show(acc, r, d);
        let a = add_links(acc, r, d);
        let x = ls.last();
        assert forall|b: int| 0 <= b < d.len() implies #[trigger] ls[b] == d[b] by {}
        assert forall|i: int| acc.len() <= i < a.len() implies shows_one_of(#[trigger] a[i], r, ls) by {
            assert(shows_one_of(a[i], r, d));
            let b = choose|b: int| 0 <= b < d.len() && #[trigger] shows_link(a[i], r, d[b]);
            assert(shows_link(a[i], r, ls[b]));
        }
        if !has_url(a, x.url) {
            let c = a.push(item_of(r, x));
            assert(add_links(acc, r, ls) == c);
            assert forall|i: int| 0 <= i < a.len() implies #[trigger] c[i] == a[i] by {}
            assert forall|i: int| acc.len() <= i < c.len() implies shows_one_of(#[trigger] c[i], r, ls) by {
                if i < a.len() {
                    assert(shows_one_of(a[i], r, ls));
                } else {
                    assert(shows_link(c[i], r, ls[ls.len() - 1]));
                }
            }
            assert forall|u: Seq<char>| has_url(a, u) implies #[trigger] has_url(c, u) by {
                let k = choose|k: int| 0 <= k < a.len() && a[k].url == u;
                assert(c[k] == a[k]);
            }
            assert(c[a.len() as int].url == x.url);
            assert(has_url(c, x.url));
        } else {
            assert(add_links(acc, r, ls) == a);
        }
    }
}

/// Each item of the search page shows a link of one of the results (its
/// URL, password and drive kind, and the result's title, source and day),
/// and every link of every result is shown by some item.
pub proof fn law_page_items_show_links(rs: Seq<SearchResultView>)
    ensures
        forall|i: int|
            0 <= i < page_items_of(rs).len() ==> shows_result_link(#[trigger] page_items_of(rs)[i], rs),
        forall|a: int, b: int|
            0 <= a < rs.len() && 0 <= b < rs[a].links.len() ==> has_url(
                page_items_of(rs),
                #[trigger] rs[a].links[b].url,
            ),
    decreases rs.len(),
{
    if rs.len() > 0 {
        let d = rs.drop_last();
        law_page_items_show_links(d);
        let p = page_items_of(d);
        let r = rs.last();
        lemma_add_links_show(p, r, r.links);
        let q = page_items_of(rs);
        assert(q == add_links(p, r, r.links));
        assert forall|a: int| 0 <= a < d.len() implies #[trigger] rs[a] == d[a] by {}
        assert forall|i: int| 0 <= i < q.len() implies shows_result_link(#[trigger] q[i], rs) by {
            if i < p.len() {
                assert(shows_result_link(p[i], d));
                let a = choose|a: int| 0 <= a < d.len() && #[trigger] shows_one_of(p[i], d[a], d[a].links);
                assert(q[i] == p[i]);
                assert(shows_one_of(q[i], rs[a], rs[a].links));
            } else {
                assert(shows_one_of(q[i], r, r.links));
                assert(shows_one_of(q[i], rs[rs.len() - 1], rs[rs.len() - 1].links));
            }
        }
        assert forall|a: int, b: int| 0 <= a < rs.len() && 0 <= b < rs[a].links.len() implies has_url(
            q,
            #[trigger] rs[a].links[b].url,
        ) by {
            if a < d.len() {
                assert(has_url(p, d[a].links[b].url));
            }
        }
    }
}

fn url_seen(items: &Vec<LinkItem>, u: &[char]) -> (r: bool)
    ensures
        r == has_url(items_view(items@), u@),
{
    let mut i: usize = 0;
    while i < items.len()
        invariant
            i <= items@.len(),
            forall|j: int| 0 <= j < i ==> items_view(items@)[j].url != u@,
        decreases items@.len() - i,
    {
        let v = chars_of(items[i].url.as_str());
        if chars_eq(v.as_slice(), u) {
            assert(items_view(items@)[i as int].url == u@);
            return true;
        }
        i = i + 1;
    }
    false
}

/// The items of all links of the results (see [`page_items_of`]).
pub fn collect_link_items(results: &Vec<SearchResult>) -> (r: Vec<LinkItem>)
    ensures
        items_view(r@) == page_items_of(results_view(results@)),
{
    let ghost rv = results_view(results@);
    let mut out: Vec<LinkItem> = Vec::new();
    let mut i: usize = 0;
    while i < results.len()
        invariant
            i <= results@.len(),
            rv == results_view(results@),
            items_view(out@) == page_items_of(rv.take(i as int)),
        decreases results@.len() - i,
    {
        let r = &results[i];
        let ghost base = items_view(out@);
        let ghost lv = r@.links;
        let date = format_date(r.datetime);
        let mut j: usize = 0;
        while j < r.links.len()
            invariant
                j <= r.links@.len(),
                lv == r@.links,
                lv.len() == r.links@.len(),
                date@ == spec_format_date(r.datetime),
                items_view(out@) == add_links(base, r@, lv.take(j as int)),
            decreases r.links@.len() - j,
        {
            let l: &Link = &r.links[j];
            let u = chars_of(l.url.as_str());
            proof {
                assert(lv.take(j + 1).drop_last() =~= lv.take(j as int));
                assert(lv.take(j + 1).last() == lv[j as int]);
                assert(lv[j as int] == l@);
            }
            if !url_seen(&out, u.as_slice()) {
                let item = LinkItem {
                    url: l.url.clone(),
                    password: l.password.clone(),
                    title: r.title.clone(),
                    source: r.channel.clone(),
                    datetime: date.clone(),
                    disk_type: l.disk_type.clone(),
                };
                let ghost before = items_view(out@);
                out.push(item);
                assert(items_view(out@) =~= before.push(item_of(r@, lv[j as int])));
            }
            j = j + 1;
        }
        proof {
            assert(lv.take(lv.len() as int) =~= lv);
            assert(rv.take(i + 1).drop_last() =~= rv.take(i as int));
            assert(rv.take(i + 1).last() == r@);
        }
        i = i + 1;
    }
    assert(rv.take(rv.len() as int) =~= rv);
    out
}

// ---------------------------------------------------------------------
// Grouping by drive kind
// ---------------------------------------------------------------------

/// The identifiers of the known drive kinds, in display order.
pub open spec fn type_order() -> Seq<Seq<char>> {
    all_disk_types().map_values(|d: DiskType| disk_type_name(d))
}

/// The identifiers of the known drive kinds, in display order.
fn type_order_exec() -> (r: Vec<&'static str>)
    ensures
        r@.map_values(|s: &str| s@) == type_order(),
{
    let kinds = DiskType::display_order();
    let mut r: Vec<&'static str> = Vec::new();
    let mut i: usize = 0;
    while i < kinds.len()
        invariant
            i <= kinds@.len(),
            kinds@ == all_disk_types(),
            r@.len() == i,
            forall|j: int| 0 <= j < i ==> (#[trigger] r@[j])@ == disk_type_name(kinds@[j]),
        decreases kinds@.len() - i,
    {
        r.push(kinds[i].as_str());
        i = i + 1;
    }
    assert(r@.map_values(|s: &str| s@) =~= type_order());
    r
}

/// Number of items of drive kind `dt`.
pub open spec fn count_of(items: Seq<LinkItemView>, dt: Seq<char>) -> nat
    decreases items.len(),
{
    if items.len() == 0 {
        0
    } else {
        count_of(items.drop_last(), dt) + if items.last().disk_type == dt { 1nat } else { 0nat }
    }
}

/// The items of drive kind `dt`, in order.
pub open spec fn items_of_type(items: Seq<LinkItemView>, dt: Seq<char>) -> Seq<LinkItemView>
    decreases items.len(),
{
    if items.len() == 0 {
        items
    } else if items.last().disk_type == dt {
        items_of_type(items.drop_last(), dt).push(items.last())
    } else {
        items_of_type(items.drop_last(), dt)
    }
}

/// The kinds of the items that are not known kinds, each once, in order of
/// first appearance.
pub open spec fn other_types(items: Seq<LinkItemView>) -> Seq<Seq<char>>
    decreases items.len(),
{
    if items.len() == 0 {
        Seq::empty()
    } else {
        let acc = other_types(items.drop_last());
        let dt = items.last().disk_type;
        if type_order().contains(dt) || acc.contains(dt) {
            acc
        } else {
            acc.push(dt)
        }
    }
}

/// Mathematical view of a [`TypeGroup`].
pub struct TypeGroupView {
    pub disk_type: Seq<char>,
    pub label: Seq<char>,
    pub count: usize,
}

impl View for TypeGroup {
    type V = TypeGroupView;

    open spec fn view(&self) -> TypeGroupView {
        TypeGroupView { disk_type: self.disk_type@, label: self.label@, count: self.count }
    }
}

/// The group of kind `dt` over `items`.
pub open spec fn group_of(items: Seq<LinkItemView>, dt: Seq<char>) -> TypeGroupView {
    TypeGroupView { disk_type: dt, label: type_friendly_of(dt), count: count_of(items, dt) as usize }
}

/// The groups of the kinds in `order` that occur in `items`.
pub open spec fn groups_in_order(items: Seq<LinkItemView>, order: Seq<Seq<char>>) -> Seq<TypeGroupView>
    decreases order.len(),
{
    if order.len() == 0 {
        Seq::empty()
    } else {
        let g = groups_in_order(items, order.drop_last());
        if count_of(items, order.last()) > 0 {
            g.push(group_of(items, order.last()))
        } else {
            g
        }
    }
}

/// The groups of the page header: the known kinds in display order, then
/// the other kinds in order of first appearance, each with its count.
pub open spec fn type_groups_of(items: Seq<LinkItemView>) -> Seq<TypeGroupView> {
    groups_in_order(items, type_order()) + groups_in_order(items, other_types(items))
}

proof fn lemma_count_le(items: Seq<LinkItemView>, dt: Seq<char>)
    ensures
        count_of(items, dt) <= items.len(),
        count_of(items, dt) == items_of_type(items, dt).len(),
    decreases items.len(),
{
    if items.len() > 0 {
        lemma_count_le(items.drop_last(), dt);
    }
}

proof fn lemma_other_types_occur(items: Seq<LinkItemView>)
    ensures
        forall|i: int| 0 <= i < other_types(items).len() ==> count_of(items, #[trigger] other_types(items)[i]) > 0,
    decreases items.len(),
{
    if items.len() > 0 {
        let d = items.drop_last();
        lemma_other_types_occur(d);
        lemma_count_monotone(items, other_types(d));
    }
}

proof fn lemma_count_monotone(items: Seq<LinkItemView>, ks: Seq<Seq<char>>)
    requires
        items.len() > 0,
    ensures
        forall|i: int| 0 <= i < ks.len() ==> count_of(items, #[trigger] ks[i]) >= count_of(items.drop_last(), ks[i]),
        count_of(items, items.last().disk_type) > 0,
{
}

/// Items of kind `dt` (see [`items_of_type`]).
fn select_type(items: &Vec<LinkItem>, dt: &[char]) -> (r: Vec<LinkItem>)
    ensures
        items_view(r@) == items_of_type(items_view(items@), dt@),
{
    let ghost iv = items_view(items@);
    let mut out: Vec<LinkItem> = Vec::new();
    let mut i: usize = 0;
    while i < items.len()
        invariant
            i <= items@.len(),
            iv == items_view(items@),
            items_view(out@) == items_of_type(iv.take(i as int), dt@),
        decreases items@.len() - i,
    {
        proof {
            assert(iv.take(i + 1).drop_last() =~= iv.take(i as int));
            assert(iv.take(i + 1).last() == items@[i as int]@);
        }
        let k = chars_of(items[i].disk_type.as_str());
        if chars_eq(k.as_slice(), dt) {
            let ghost before = items_view(out@);
            out.push(items[i].duplicate());
            assert(items_view(out@) =~= before.push(items@[i as int]@));
        }
        i = i + 1;
    }
    assert(iv.take(iv.len() as int) =~= iv);
    out
}

/// Kinds of the items that are not known kinds (see [`other_types`]).
fn collect_other_types(items: &Vec<LinkItem>, order: &Vec<&'static str>) -> (r: Vec<Vec<char>>)
    requires
        order@.map_values(|s: &str| s@) == type_order(),
    ensures
        r@.map_values(|v: Vec<char>| v@) == other_types(items_view(items@)),
{
    let ghost iv = items_view(items@);
    let mut acc: Vec<Vec<char>> = Vec::new();
    let mut i: usize = 0;
    while i < items.len()
        invariant
            i <= items@.len(),
            iv == items_view(items@),
            order@.map_values(|s: &str| s@) == type_order(),
            acc@.map_values(|v: Vec<char>| v@) == other_types(iv.take(i as int)),
        decreases items@.len() - i,
    {
        proof {
            assert(iv.take(i + 1).drop_last() =~= iv.take(i as int));
            assert(iv.take(i + 1).last() == items@[i as int]@);
        }
        let k = chars_of(items[i].disk_type.as_str());
        let mut known = false;
        let mut j: usize = 0;
        while j < order.len()
            invariant
                j <= order@.len(),
                order@.map_values(|s: &str| s@) == type_order(),
                k@ == iv[i as int].disk_type,
                i < iv.len(),
                known <==> exists|q: int| 0 <= q < j && type_order()[q] == k@,
            decreases order@.len() - j,
        {
            let ov = chars_of(order[j]);
            assert(type_order()[j as int] == order@[j as int]@);
            if chars_eq(ov.as_slice(), k.as_slice()) {
                known = true;
            }
            j = j + 1;
        }
        let ghost accv = acc@.map_values(|v: Vec<char>| v@);
        let mut dup = false;
        let mut q: usize = 0;
        while q < acc.len()
            invariant
                q <= acc@.len(),
                accv == acc@.map_values(|v: Vec<char>| v@),
                dup <==> exists|t: int| 0 <= t < q && accv[t] == k@,
            decreases acc@.len() - q,
        {
            assert(accv[q as int] == acc@[q as int]@);
            if chars_eq(acc[q].as_slice(), k.as_slice()) {
                dup = true;
            }
            q = q + 1;
        }
        proof {
            if known {
                let t = choose|t: int| 0 <= t < order@.len() && type_order()[t] == k@;
                assert(type_order().contains(k@));
            } else {
                assert(!type_order().contains(k@));
            }
            if dup {
                let t = choose|t: int| 0 <= t < acc@.len() && accv[t] == k@;
                assert(accv.contains(k@));
            }
        }
        if !known && !dup {
            acc.push(k);
            assert(acc@.map_values(|v: Vec<char>| v@) =~= accv.push(iv[i as int].disk_type));
        }
        i = i + 1;
    }
    assert(iv.take(iv.len() as int) =~= iv);
    acc
}

/// Groups (with counts) of the kinds in `order` that occur in `items`.
fn groups_for(items: &Vec<LinkItem>, order: &Vec<Vec<char>>) -> (r: Vec<TypeGroup>)
    ensures
        r@.map_values(|g: TypeGroup| g@) == groups_in_order(
            items_view(items@),
            order@.map_values(|v: Vec<char>| v@),
        ),
{
    let ghost ov = order@.map_values(|v: Vec<char>| v@);
    let ghost iv = items_view(items@);
    let mut out: Vec<TypeGroup> = Vec::new();
    let mut i: usize = 0;
    while i < order.len()
        invariant
            i <= order@.len(),
            ov == order@.map_values(|v: Vec<char>| v@),
            iv == items_view(items@),
            out@.map_values(|g: TypeGroup| g@) == groups_in_order(iv, ov.take(i as int)),
        decreases order@.len() - i,
    {
        let sel = select_type(items, order[i].as_slice());
        proof {
            lemma_count_le(iv, ov[i as int]);
            assert(ov.take(i + 1).drop_last() =~= ov.take(i as int));
            assert(ov.take(i + 1).last() == ov[i as int]);
        }
        if sel.len() > 0 {
            let dt = crate::text::string_of(order[i].as_slice());
            let label = type_friendly(dt.as_str());
            let ghost before = out@.map_values(|g: TypeGroup| g@);
            out.push(TypeGroup { disk_type: dt, label, count: sel.len() });
            assert(out@.map_values(|g: TypeGroup| g@) =~= before.push(group_of(iv, ov[i as int])));
        }
        i = i + 1;
    }
    assert(ov.take(ov.len() as int) =~= ov);
    out
}

// ---------------------------------------------------------------------
// Pages
// ---------------------------------------------------------------------

/// Mathematical view of a [`TypeGroupWithLinks`].
pub struct TypeGroupWithLinksView {
    pub disk_type: Seq<char>,
    pub label: Seq<char>,
    pub links: Seq<LinkItemView>,
}

impl View for TypeGroupWithLinks {
    type V = TypeGroupWithLinksView;

    open spec fn view(&self) -> TypeGroupWithLinksView {
        TypeGroupWithLinksView {
            disk_type: self.disk_type@,
            label: self.label@,
            links: items_view(self.links@),
        }
    }
}

/// The item groups of the kinds in `order` that occur in `items`.
pub open spec fn item_groups_in_order(items: Seq<LinkItemView>, order: Seq<Seq<char>>) -> Seq<
    TypeGroupWithLinksView,
>
    decreases order.len(),
{
    if order.len() == 0 {
        Seq::empty()
    } else {
        let g = item_groups_in_order(items, order.drop_last());
        let sel = items_of_type(items, order.last());
        if sel.len() > 0 {
            g.push(
                TypeGroupWithLinksView {
                    disk_type: order.last(),
                    label: type_friendly_of(order.last()),
                    links: sel,
                },
            )
        } else {
            g
        }
    }
}

/// The filter value that selects every kind.
pub open spec fn all_filter() -> Seq<char> {
    "__all__"@
}

/// The items passing the kind filter.
pub open spec fn filtered_of(items: Seq<LinkItemView>, filter: Seq<char>) -> Seq<LinkItemView> {
    if filter == all_filter() {
        items
    } else {
        items_of_type(items, filter)
    }
}

/// Index of the first item of page `page` (pages count from 1; 0 is
/// taken as 1).
pub open spec fn page_start(page: usize) -> int {
    (if page >= 1 { page - 1 } else { 0 }) * (PAGE_SIZE as int)
}

/// The items of page `page`.
pub open spec fn page_slice(s: Seq<LinkItemView>, page: usize) -> Seq<LinkItemView> {
    let b = if page_start(page) < s.len() { page_start(page) } else { s.len() as int };
    let e = if b + PAGE_SIZE < s.len() { b + PAGE_SIZE } else { s.len() as int };
    s.subrange(b, e)
}

/// The groups shown on a page: with every kind selected, the page's items
/// by kind (known kinds in display order, then the others in order of
/// first appearance); with one kind selected, that kind alone when the
/// page has items.
pub open spec fn page_groups_of(page: Seq<LinkItemView>, filter: Seq<char>) -> Seq<
    TypeGroupWithLinksView,
> {
    if filter == all_filter() {
        item_groups_in_order(page, type_order()) + item_groups_in_order(page, other_types(page))
    } else if page.len() > 0 {
        seq![TypeGroupWithLinksView { disk_type: filter, label: type_friendly_of(filter), links: page }]
    } else {
        Seq::empty()
    }
}

/// The content of the search page.
#[derive(Debug)]
pub struct SearchPage {
    pub total_links: usize,
    pub total_filtered: usize,
    pub type_groups: Vec<TypeGroup>,
    pub page_groups: Vec<TypeGroupWithLinks>,
}

/// Item groups of the kinds in `order` that occur in `items`.
fn item_groups_for(items: &Vec<LinkItem>, order: &Vec<Vec<char>>) -> (r: Vec<TypeGroupWithLinks>)
    ensures
        r@.map_values(|g: TypeGroupWithLinks| g@) == item_groups_in_order(
            items_view(items@),
            order@.map_values(|v: Vec<char>| v@),
        ),
{
    let ghost ov = order@.map_values(|v: Vec<char>| v@);
    let ghost iv = items_view(items@);
    let mut out: Vec<TypeGroupWithLinks> = Vec::new();
    let mut i: usize = 0;
    while i < order.len()
        invariant
            i <= order@.len(),
            ov == order@.map_values(|v: Vec<char>| v@),
            iv == items_view(items@),
            out@.map_values(|g: TypeGroupWithLinks| g@) == item_groups_in_order(iv, ov.take(i as int)),
        decreases order@.len() - i,
    {
        let sel = select_type(items, order[i].as_slice());
        proof {
            assert(ov.take(i + 1).drop_last() =~= ov.take(i as int));
            assert(ov.take(i + 1).last() == ov[i as int]);
        }
        if sel.len() > 0 {
            let dt = crate::text::string_of(order[i].as_slice());
            let label = type_friendly(dt.as_str());
            let ghost before = out@.map_values(|g: TypeGroupWithLinks| g@);
            let ghost sv = items_view(sel@);
            out.push(TypeGroupWithLinks { disk_type: dt, label, links: sel });
            assert(out@.map_values(|g: TypeGroupWithLinks| g@) =~= before.push(
                TypeGroupWithLinksView {
                    disk_type: ov[i as int],
                    label: type_friendly_of(ov[i as int]),
                    links: sv,
                },
            ));
        }
        i = i + 1;
    }
    assert(ov.take(ov.len() as int) =~= ov);
    out
}

/// The identifiers of the known kinds as character vectors.
fn type_order_chars(order: &Vec<&'static str>) -> (r: Vec<Vec<char>>)
    ensures
        r@.map_values(|v: Vec<char>| v@) == order@.map_values(|s: &str| s@),
{
    let mut r: Vec<Vec<char>> = Vec::new();
    let mut i: usize = 0;
    while i < order.len()
        invariant
            i <= order@.len(),
            r@.len() == i,
            forall|j: int| 0 <= j < i ==> (#[trigger] r@[j])@ == order@[j]@,
        decreases order@.len() - i,
    {
        r.push(chars_of(order[i]));
        i = i + 1;
    }
    assert(r@.map_values(|v: Vec<char>| v@) =~= order@.map_values(|s: &str| s@));
    r
}

/// Builds the content of the search page for `results`, the kind filter
/// (`__all__` for every kind) and the page number.
pub fn build_search_page(results: &Vec<SearchResult>, disk_type_filter: &str, page: usize) -> (r:
    SearchPage)
    requires
        page_start(page) + PAGE_SIZE <= usize::MAX,
    ensures
        r.total_links == page_items_of(results_view(results@)).len(),
        r.total_filtered == filtered_of(
            page_items_of(results_view(results@)),
            disk_type_filter@,
        ).len(),
        r.type_groups@.map_values(|g: TypeGroup| g@) == type_groups_of(
            page_items_of(results_view(results@)),
        ),
        r.page_groups@.map_values(|g: TypeGroupWithLinks| g@) == page_groups_of(
            page_slice(filtered_of(page_items_of(results_view(results@)), disk_type_filter@), page),
            disk_type_filter@,
        ),
{
    let items = collect_link_items(results);
    let ghost iv = items_view(items@);
    let order = type_order_exec();
    let order_cs = type_order_chars(&order);
    let others = collect_other_types(&items, &order);
    let mut type_groups = groups_for(&items, &order_cs);
    let mut more = groups_for(&items, &others);
    let ghost g1 = type_groups@.map_values(|g: TypeGroup| g@);
    let ghost g2 = more@.map_values(|g: TypeGroup| g@);
    type_groups.append(&mut more);
    assert(type_groups@.map_values(|g: TypeGroup| g@) =~= g1 + g2);
    let is_all = str_eq(disk_type_filter, "__all__");
    let fc = chars_of(disk_type_filter);
    let filtered = if is_all {
        let mut c: Vec<LinkItem> = Vec::new();
        let mut i: usize = 0;
        while i < items.len()
            invariant
                i <= items@.len(),
                c@.len() == i,
                forall|j: int| 0 <= j < i ==> (#[trigger] c@[j])@ == items@[j]@,
            decreases items@.len() - i,
        {
            c.push(items[i].duplicate());
            i = i + 1;
        }
        assert(items_view(c@) =~= iv);
        c
    } else {
        select_type(&items, fc.as_slice())
    };
    let ghost fv = items_view(filtered@);
    let total_filtered = filtered.len();
    let start: usize = if page >= 1 { (page - 1) * PAGE_SIZE } else { 0 };
    let b: usize = if start < filtered.len() { start } else { filtered.len() };
    let e: usize = if b + PAGE_SIZE < filtered.len() { b + PAGE_SIZE } else { filtered.len() };
    let mut page_items: Vec<LinkItem> = Vec::new();
    let mut i: usize = b;
    while i < e
        invariant
            b <= i <= e <= filtered@.len(),
            items_view(page_items@) == fv.subrange(b as int, i as int),
            fv == items_view(filtered@),
        decreases e - i,
    {
        let ghost before = page_items@;
        let d = filtered[i].duplicate();
        assert(d@ == fv[i as int]);
        page_items.push(d);
        assert(page_items@ == before.push(d));
        assert(items_view(page_items@) =~= items_view(before).push(d@));
        i = i + 1;
        assert(fv.subrange(b as int, i as int) =~= fv.subrange(b as int, i - 1).push(d@));
    }
    let ghost pv = items_view(page_items@);
    assert(pv == page_slice(fv, page));
    let page_groups = if is_all {
        let page_others = collect_other_types(&page_items, &order);
        let mut g = item_groups_for(&page_items, &order_cs);
        let mut h = item_groups_for(&page_items, &page_others);
        let ghost gv = g@.map_values(|x: TypeGroupWithLinks| x@);
        let ghost hv = h@.map_values(|x: TypeGroupWithLinks| x@);
        g.append(&mut h);
        assert(g@.map_values(|x: TypeGroupWithLinks| x@) =~= gv + hv);
        g
    } else {
        let mut g: Vec<TypeGroupWithLinks> = Vec::new();
        if page_items.len() > 0 {
            let label = type_friendly(disk_type_filter);
            g.push(
                TypeGroupWithLinks {
                    disk_type: disk_type_filter.to_owned(),
                    label,
                    links: page_items,
                },
            );
            assert(g@.map_values(|x: TypeGroupWithLinks| x@) =~= seq![
                TypeGroupWithLinksView {
                    disk_type: disk_type_filter@,
                    label: type_friendly_of(disk_type_filter@),
                    links: pv,
                },
            ]);
        } else {
            assert(g@.map_values(|x: TypeGroupWithLinks| x@) =~= Seq::<TypeGroupWithLinksView>::empty());
        }
        g
    };
    SearchPage { total_links: items.len(), total_filtered, type_groups, page_groups }
}


/// Whether page `page` can be shown: the index just past its end fits in
/// a `usize`.
pub fn page_in_range(page: usize) -> (r: bool)
    ensures
        r == (page_start(page) + PAGE_SIZE <= usize::MAX),
{
    let p: u128 = if page >= 1 { (page - 1) as u128 } else { 0 };
    p * 20 + 20 <= usize::MAX as u128
}

/// What a request for the search page asks: a redirection to the home
/// page, or a search and how to show it.
#[derive(Debug)]
pub enum PageQuery {
    Redirect,
    Show { request: SearchRequest, disk_type_filter: String, page: usize },
}

/// A query parameter that is present and not blank.
pub open spec fn nonblank_param(v: Option<Seq<char>>) -> bool {
    v matches Some(s) && s.len() > 0 && spec_trim(s).len() > 0
}

/// The keyword of the search page: the first of the parameters `q` and
/// `kw` that is present and not blank, if any.
pub open spec fn page_keyword_of(q: Seq<(Seq<char>, Seq<char>)>) -> Option<Seq<char>> {
    if nonblank_param(param_of(q, "q"@)) {
        param_of(q, "q"@)
    } else if nonblank_param(param_of(q, "kw"@)) {
        param_of(q, "kw"@)
    } else {
        None
    }
}

/// The search page's request for query parameters `q`, searching the
/// channels `channels`: `None` (redirect home) when there is no keyword
/// (see [`page_keyword_of`]); otherwise the request for the keyword with
/// source `src` (`all` by default), the kind filter `disk_type` (`__all__`
/// by default), and the page number `page` (1 when missing or not a
/// number).
pub open spec fn page_query_of(q: Seq<(Seq<char>, Seq<char>)>) -> Option<(Seq<char>, Seq<char>, Seq<char>, usize)> {
    match page_keyword_of(q) {
        None => None,
        Some(kw) => Some(
            (
                kw,
                match param_of(q, "src"@) {
                    Some(v) => v,
                    None => "all"@,
                },
                match param_of(q, "disk_type"@) {
                    Some(v) => v,
                    None => "__all__"@,
                },
                match param_of(q, "page"@) {
                    Some(v) => match parse_usize_of(v) {
                        Some(n) => n,
                        None => 1,
                    },
                    None => 1,
                },
            ),
        ),
    }
}

/// The value of parameter `k` when it is present and not blank.
fn nonblank_get(q: &Vec<(String, String)>, k: &str) -> (r: Option<String>)
    ensures
        match r {
            Some(v) => nonblank_param(param_of(params_view(q@), k@)) && param_of(
                params_view(q@),
                k@,
            ) == Some(v@),
            None => !nonblank_param(param_of(params_view(q@), k@)),
        },
{
    match query_get(q, k) {
        Some(v) => {
            if v.as_str().is_empty() || str_trim(v.as_str()).as_str().is_empty() {
                None
            } else {
                Some(v.clone())
            }
        },
        None => None,
    }
}

/// Reads the search page's query (see [`page_query_of`]); the search
/// request asks the given channels, with every other setting at its
/// default.
pub fn page_query(q: &Vec<(String, String)>, channels: &Vec<String>) -> (r: PageQuery)
    ensures
        match r {
            PageQuery::Redirect => page_query_of(params_view(q@)) is None,
            PageQuery::Show { request, disk_type_filter, page } => page_query_of(params_view(q@))
                == Some((request.keyword@, request.source_type@, disk_type_filter@, page))
                && strs_view(request.channels@) == strs_view(channels@) && request.concurrency == 0
                && !request.force_refresh && request.result_type@.len() == 0
                && request.plugins@.len() == 0 && request.ext@.len() == 0
                && request.cloud_types@.len() == 0,
        },
{
    let kw = match nonblank_get(q, "q") {
        Some(v) => v,
        None => match nonblank_get(q, "kw") {
            Some(v) => v,
            None => {
                return PageQuery::Redirect;
            },
        },
    };
    let src = match query_get(q, "src") {
        Some(v) => v.clone(),
        None => "all".to_owned(),
    };
    let filter = match query_get(q, "disk_type") {
        Some(v) => v.clone(),
        None => "__all__".to_owned(),
    };
    let page: usize = match query_get(q, "page") {
        Some(v) => match parse_usize(v.as_str()) {
            Some(n) => n,
            None => 1,
        },
        None => 1,
    };
    let request = SearchRequest {
        keyword: kw,
        channels: clone_strings(channels),
        concurrency: 0,
        force_refresh: false,
        result_type: String::new(),
        source_type: src,
        plugins: Vec::new(),
        ext: Vec::new(),
        cloud_types: Vec::new(),
    };
    PageQuery::Show { request, disk_type_filter: filter, page }
}


/// The URLs of the items are distinct.
pub open spec fn urls_distinct(items: Seq<LinkItemView>) -> bool {
    forall|i: int, j: int| 0 <= i < j < items.len() ==> (#[trigger] items[i]).url != (#[trigger] items[j]).url
}

proof fn lemma_add_links_distinct(acc: Seq<LinkItemView>, r: SearchResultView, ls: Seq<LinkView>)
    requires
        urls_distinct(acc),
    ensures
        urls_distinct(add_links(acc, r, ls)),
    decreases ls.len(),
{
    if ls.len() > 0 {
        lemma_add_links_distinct(acc, r, ls.drop_last());
        let a = add_links(acc, r, ls.drop_last());
        if !has_url(a, ls.last().url) {
            let b = a.push(item_of(r, ls.last()));
            assert forall|i: int, j: int| 0 <= i < j < b.len() implies (#[trigger] b[i]).url != (#[trigger] b[j]).url by {
                if j == b.len() - 1 {
                    assert(b[i] == a[i]);
                    assert(!(0 <= i < a.len() && a[i].url == ls.last().url));
                }
            }
        }
    }
}

/// Each link is shown once: the page's items have distinct URLs.
pub proof fn law_page_items_unique(rs: Seq<SearchResultView>)
    ensures
        urls_distinct(page_items_of(rs)),
    decreases rs.len(),
{
    if rs.len() > 0 {
        law_page_items_unique(rs.drop_last());
        lemma_add_links_distinct(page_items_of(rs.drop_last()), rs.last(), rs.last().links);
    }
}

/// A page shows at most `PAGE_SIZE` items, taken in order from the filtered
/// items, and the filtered items are among all items.
pub proof fn law_page_bounds(items: Seq<LinkItemView>, filter: Seq<char>, page: usize)
    ensures
        page_slice(filtered_of(items, filter), page).len() <= PAGE_SIZE,
        filtered_of(items, filter).len() <= items.len(),
{
    if filter != all_filter() {
        lemma_count_le(items, filter);
    }
}

} // verus!
