//! Request and response types of the API, with their mathematical views.
//!
//! Times are Unix timestamps in milliseconds (`i64`).
use vstd::prelude::*;

verus! {

/// A successful API answer: code 0, message `"success"`, and the payload.
#[derive(Debug)]
pub struct ApiResponse<T> {
    pub code: i32,
    pub message: String,
    pub data: Option<T>,
}

impl<T> ApiResponse<T> {
    /// Wraps `data` in a success answer.
    pub fn success(data: T) -> (r: Self)
        ensures
            r.code == 0,
            r.message@ == "success"@,
            r.data == Some(data),
    {
        ApiResponse { code: 0, message: "success".to_owned(), data: Some(data) }
    }
}

/// An API error answer.
#[derive(Debug)]
pub struct ApiErrorResponse {
    pub code: i32,
    pub message: String,
}

/// A search request.
///
/// `result_type`: `all` (results and merged-by-type), `results`, or other
/// (merged-by-type only). `source_type`: `all`, `tg`, `plugin`. `ext` holds
/// extension parameters as (key, JSON text of the value) pairs.
#[derive(Debug, Clone, Default)]
pub struct SearchRequest {
    pub keyword: String,
    pub channels: Vec<String>,
    pub concurrency: i32,
    pub force_refresh: bool,
    pub result_type: String,
    pub source_type: String,
    pub plugins: Vec<String>,
    pub ext: Vec<(String, String)>,
    pub cloud_types: Vec<String>,
}

/// A share link found in a search result.
#[derive(Debug)]
pub struct Link {
    pub disk_type: String,
    pub url: String,
    pub password: String,
    pub datetime: Option<i64>,
    pub work_title: Option<String>,
}

/// Mathematical view of a [`Link`].
pub struct LinkView {
    pub disk_type: Seq<char>,
    pub url: Seq<char>,
    pub password: Seq<char>,
    pub datetime: Option<i64>,
    pub work_title: Option<Seq<char>>,
}

/// View of an optional string.
pub open spec fn opt_view(o: Option<String>) -> Option<Seq<char>> {
    match o {
        Some(s) => Some(s@),
        None => None,
    }
}

/// View of a vector of strings.
pub open spec fn strs_view(v: Seq<String>) -> Seq<Seq<char>> {
    v.map_values(|s: String| s@)
}

impl View for Link {
    type V = LinkView;

    open spec fn view(&self) -> LinkView {
        LinkView {
            disk_type: self.disk_type@,
            url: self.url@,
            password: self.password@,
            datetime: self.datetime,
            work_title: opt_view(self.work_title),
        }
    }
}

/// Copies an optional string.
pub fn clone_opt_string(o: &Option<String>) -> (r: Option<String>)
    ensures
        opt_view(r) == opt_view(*o),
{
    match o {
        Some(s) => Some(s.clone()),
        None => None,
    }
}

/// Copies a vector of strings.
pub fn clone_strings(v: &Vec<String>) -> (r: Vec<String>)
    ensures
        strs_view(r@) == strs_view(v@),
{
    let mut r: Vec<String> = Vec::new();
    let mut i: usize = 0;
    while i < v.len()
        invariant
            i <= v.len(),
            r@.len() == i,
            forall|k: int| 0 <= k < i ==> #[trigger] r@[k]@ == v@[k]@,
        decreases v.len() - i,
    {
        r.push(v[i].clone());
        i = i + 1;
    }
    assert(strs_view(r@) =~= strs_view(v@));
    r
}

impl Link {
    /// Copies this link.
    pub fn duplicate(&self) -> (r: Link)
        ensures
            r@ == self@,
    {
        Link {
            disk_type: self.disk_type.clone(),
            url: self.url.clone(),
            password: self.password.clone(),
            datetime: self.datetime,
            work_title: clone_opt_string(&self.work_title),
        }
    }
}

/// View of a vector of links.
pub open spec fn links_view(v: Seq<Link>) -> Seq<LinkView> {
    v.map_values(|l: Link| l@)
}

/// Copies a vector of links.
pub fn clone_links(v: &Vec<Link>) -> (r: Vec<Link>)
    ensures
        links_view(r@) == links_view(v@),
{
    let mut r: Vec<Link> = Vec::new();
    let mut i: usize = 0;
    while i < v.len()
        invariant
            i <= v.len(),
            r@.len() == i,
            forall|k: int| 0 <= k < i ==> #[trigger] r@[k]@ == v@[k]@,
        decreases v.len() - i,
    {
        r.push(v[i].duplicate());
        i = i + 1;
    }
    assert(links_view(r@) =~= links_view(v@));
    r
}

/// One search hit: a message (or plugin item) with the share links in it.
///
/// `unique_id` identifies the hit when results are merged; `channel` is
/// `tg:<name>`, a plugin name, or empty; `channel_score` is the reliability
/// score of the source.
#[derive(Debug)]
pub struct SearchResult {
    pub message_id: String,
    pub unique_id: String,
    pub channel: String,
    pub channel_score: i32,
    pub datetime: i64,
    pub title: String,
    pub content: String,
    pub links: Vec<Link>,
    pub tags: Vec<String>,
    pub images: Vec<String>,
}

/// Mathematical view of a [`SearchResult`].
pub struct SearchResultView {
    pub message_id: Seq<char>,
    pub unique_id: Seq<char>,
    pub channel: Seq<char>,
    pub channel_score: i32,
    pub datetime: i64,
    pub title: Seq<char>,
    pub content: Seq<char>,
    pub links: Seq<LinkView>,
    pub tags: Seq<Seq<char>>,
    pub images: Seq<Seq<char>>,
}

impl View for SearchResult {
    type V = SearchResultView;

    open spec fn view(&self) -> SearchResultView {
        SearchResultView {
            message_id: self.message_id@,
            unique_id: self.unique_id@,
            channel: self.channel@,
            channel_score: self.channel_score,
            datetime: self.datetime,
            title: self.title@,
            content: self.content@,
            links: links_view(self.links@),
            tags: strs_view(self.tags@),
            images: strs_view(self.images@),
        }
    }
}

impl SearchResult {
    /// Copies this result.
    pub fn duplicate(&self) -> (r: SearchResult)
        ensures
            r@ == self@,
    {
        SearchResult {
            message_id: self.message_id.clone(),
            unique_id: self.unique_id.clone(),
            channel: self.channel.clone(),
            channel_score: self.channel_score,
            datetime: self.datetime,
            title: self.title.clone(),
            content: self.content.clone(),
            links: clone_links(&self.links),
            tags: clone_strings(&self.tags),
            images: clone_strings(&self.images),
        }
    }
}

/// View of a vector of results.
pub open spec fn results_view(v: Seq<SearchResult>) -> Seq<SearchResultView> {
    v.map_values(|r: SearchResult| r@)
}

/// Copies a vector of results.
pub fn clone_results(v: &Vec<SearchResult>) -> (r: Vec<SearchResult>)
    ensures
        results_view(r@) == results_view(v@),
{
    let mut r: Vec<SearchResult> = Vec::new();
    let mut i: usize = 0;
    while i < v.len()
        invariant
            i <= v.len(),
            r@.len() == i,
            forall|k: int| 0 <= k < i ==> #[trigger] r@[k]@ == v@[k]@,
        decreases v.len() - i,
    {
        r.push(v[i].duplicate());
        i = i + 1;
    }
    assert(results_view(r@) =~= results_view(v@));
    r
}

/// A link in the answer's grouping by drive kind: the link with the title
/// (`note`), time and source channel of the result it was found in.
#[derive(Debug)]
pub struct MergedLink {
    pub url: String,
    pub password: String,
    pub note: String,
    pub datetime: i64,
    pub source: String,
}

/// Mathematical view of a [`MergedLink`].
pub struct MergedLinkView {
    pub url: Seq<char>,
    pub password: Seq<char>,
    pub note: Seq<char>,
    pub datetime: i64,
    pub source: Seq<char>,
}

impl View for MergedLink {
    type V = MergedLinkView;

    open spec fn view(&self) -> MergedLinkView {
        MergedLinkView {
            url: self.url@,
            password: self.password@,
            note: self.note@,
            datetime: self.datetime,
            source: self.source@,
        }
    }
}

/// The links of one drive kind.
#[derive(Debug)]
pub struct TypeLinks {
    pub disk_type: String,
    pub links: Vec<MergedLink>,
}

/// Mathematical view of a [`TypeLinks`].
pub struct TypeLinksView {
    pub disk_type: Seq<char>,
    pub links: Seq<MergedLinkView>,
}

impl View for TypeLinks {
    type V = TypeLinksView;

    open spec fn view(&self) -> TypeLinksView {
        TypeLinksView {
            disk_type: self.disk_type@,
            links: self.links@.map_values(|l: MergedLink| l@),
        }
    }
}

/// View of a grouping by drive kind.
pub open spec fn groups_view(v: Seq<TypeLinks>) -> Seq<TypeLinksView> {
    v.map_values(|g: TypeLinks| g@)
}

/// View of an optional grouping by drive kind.
pub open spec fn opt_groups_view(o: Option<Vec<TypeLinks>>) -> Option<Seq<TypeLinksView>> {
    match o {
        Some(v) => Some(groups_view(v@)),
        None => None,
    }
}

impl MergedLink {
    /// Copies this link.
    pub fn duplicate(&self) -> (r: MergedLink)
        ensures
            r@ == self@,
    {
        MergedLink {
            url: self.url.clone(),
            password: self.password.clone(),
            note: self.note.clone(),
            datetime: self.datetime,
            source: self.source.clone(),
        }
    }
}

impl TypeLinks {
    /// Copies this group.
    pub fn duplicate(&self) -> (r: TypeLinks)
        ensures
            r@ == self@,
    {
        let mut links: Vec<MergedLink> = Vec::new();
        let mut i: usize = 0;
        while i < self.links.len()
            invariant
                i <= self.links@.len(),
                links@.len() == i,
                forall|k: int| 0 <= k < i ==> #[trigger] links@[k]@ == self.links@[k]@,
            decreases self.links@.len() - i,
        {
            links.push(self.links[i].duplicate());
            i = i + 1;
        }
        assert(links@.map_values(|l: MergedLink| l@) =~= self.links@.map_values(|l: MergedLink| l@));
        TypeLinks { disk_type: self.disk_type.clone(), links }
    }
}

/// Copies an optional grouping by drive kind.
pub fn clone_groups(o: &Option<Vec<TypeLinks>>) -> (r: Option<Vec<TypeLinks>>)
    ensures
        opt_groups_view(r) == opt_groups_view(*o),
{
    match o {
        None => None,
        Some(v) => {
            let mut r: Vec<TypeLinks> = Vec::new();
            let mut i: usize = 0;
            while i < v.len()
                invariant
                    i <= v@.len(),
                    r@.len() == i,
                    forall|k: int| 0 <= k < i ==> #[trigger] r@[k]@ == v@[k]@,
                decreases v@.len() - i,
            {
                r.push(v[i].duplicate());
                i = i + 1;
            }
            assert(groups_view(r@) =~= groups_view(v@));
            Some(r)
        },
    }
}

/// The answer to a search: the results, their number, whether the answer
/// came from the cache, and (unless only results were asked for) the links
/// of the results grouped by drive kind.
#[derive(Debug)]
pub struct SearchResponse {
    pub total: usize,
    pub cache_hit: bool,
    pub results: Vec<SearchResult>,
    pub merged_by_type: Option<Vec<TypeLinks>>,
}

/// Mathematical view of a [`SearchResponse`].
pub struct SearchResponseView {
    pub total: usize,
    pub cache_hit: bool,
    pub results: Seq<SearchResultView>,
    pub merged_by_type: Option<Seq<TypeLinksView>>,
}

impl View for SearchResponse {
    type V = SearchResponseView;

    open spec fn view(&self) -> SearchResponseView {
        SearchResponseView {
            total: self.total,
            cache_hit: self.cache_hit,
            results: results_view(self.results@),
            merged_by_type: opt_groups_view(self.merged_by_type),
        }
    }
}

impl SearchResponse {
    /// Copies this response.
    pub fn duplicate(&self) -> (r: SearchResponse)
        ensures
            r@ == self@,
    {
        SearchResponse {
            total: self.total,
            cache_hit: self.cache_hit,
            results: clone_results(&self.results),
            merged_by_type: clone_groups(&self.merged_by_type),
        }
    }
}

/// A link to be checked.
#[derive(Debug, Clone)]
pub struct CheckItem {
    pub disk_type: String,
    pub url: String,
    pub password: String,
}

/// A batch of links to be checked.
#[derive(Debug, Clone)]
pub struct CheckRequest {
    pub items: Vec<CheckItem>,
    pub view_token: String,
}

/// The outcome of checking one link.
///
/// `state` is one of `ok`, `bad`, `locked`, `unsupported`, `uncertain`;
/// `checked_at` and `expires_at` are Unix times in milliseconds.
#[derive(Debug)]
pub struct CheckResult {
    pub disk_type: String,
    pub url: String,
    pub normalized_url: Option<String>,
    pub state: String,
    pub cache_hit: bool,
    pub checked_at: i64,
    pub expires_at: i64,
    pub summary: Option<String>,
}

/// Mathematical view of a [`CheckResult`].
pub struct CheckResultView {
    pub disk_type: Seq<char>,
    pub url: Seq<char>,
    pub normalized_url: Option<Seq<char>>,
    pub state: Seq<char>,
    pub cache_hit: bool,
    pub checked_at: i64,
    pub expires_at: i64,
    pub summary: Option<Seq<char>>,
}

impl View for CheckResult {
    type V = CheckResultView;

    open spec fn view(&self) -> CheckResultView {
        CheckResultView {
            disk_type: self.disk_type@,
            url: self.url@,
            normalized_url: opt_view(self.normalized_url),
            state: self.state@,
            cache_hit: self.cache_hit,
            checked_at: self.checked_at,
            expires_at: self.expires_at,
            summary: opt_view(self.summary),
        }
    }
}

impl CheckResult {
    /// Copies this result.
    pub fn duplicate(&self) -> (r: CheckResult)
        ensures
            r@ == self@,
    {
        CheckResult {
            disk_type: self.disk_type.clone(),
            url: self.url.clone(),
            normalized_url: clone_opt_string(&self.normalized_url),
            state: self.state.clone(),
            cache_hit: self.cache_hit,
            checked_at: self.checked_at,
            expires_at: self.expires_at,
            summary: clone_opt_string(&self.summary),
        }
    }
}

/// The outcomes of a batch check, in the order of the items.
#[derive(Debug)]
pub struct CheckResponse {
    pub results: Vec<CheckResult>,
}

/// A usage event sent by the front end (`metric_type` `click` records a
/// resource the user opened).
#[derive(Debug, Clone)]
pub struct MetricRequest {
    pub metric_type: String,
    pub keyword: String,
    pub title: String,
    pub url: String,
    pub channel: String,
}

} // verus!
