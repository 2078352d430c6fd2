//! Search-engine facing documents and helpers: crawler detection, simple
//! related searches, `robots.txt` and the sitemap.
use vstd::prelude::*;
use crate::constants::{default_hot_keywords, hot_keyword_list};
use crate::templates::is_crawler_ua;
use crate::text::{form_urlencode, spec_form_urlencode};
use crate::pages::{format_date, spec_format_date};

verus! {

broadcast use vstd::string::group_string_axioms;

/// Whether a request comes from a crawler: the lower-cased user agent
/// contains one of the crawler fragments.
pub fn is_crawler(user_agent: &str) -> (r: bool)
    ensures
        r == is_crawler_ua(user_agent@),
{
    crate::templates::is_crawler(user_agent)
}

/// Related searches for a keyword of 1 to 20 characters (none otherwise):
/// the keyword followed by " 百度网盘", " 阿里云盘", " 夸克网盘" and " 提取码".
pub open spec fn simple_related_of(kw: Seq<char>) -> Seq<Seq<char>> {
    if kw.len() == 0 || kw.len() > 20 {
        Seq::empty()
    } else {
        seq![kw + " 百度网盘"@, kw + " 阿里云盘"@, kw + " 夸克网盘"@, kw + " 提取码"@]
    }
}

/// Related-search suggestions (see [`simple_related_of`]).
pub fn related_searches(keyword: &str) -> (r: Vec<String>)
    ensures
        r@.map_values(|s: String| s@) == simple_related_of(keyword@),
{
    let kv = crate::text::chars_of(keyword);
    if kv.len() == 0 || kv.len() > 20 {
        let r: Vec<String> = Vec::new();
        assert(r@.map_values(|s: String| s@) =~= simple_related_of(keyword@));
        return r;
    }
    let r = vec![
        crate::text::concat2(keyword, " 百度网盘"),
        crate::text::concat2(keyword, " 阿里云盘"),
        crate::text::concat2(keyword, " 夸克网盘"),
        crate::text::concat2(keyword, " 提取码"),
    ];
    assert(r@.map_values(|s: String| s@) =~= simple_related_of(keyword@));
    r
}

/// The `robots.txt` document for a site at `domain` (no trailing slash):
/// the home page, the search pages and the resource pages may be crawled,
/// the API may not, and the sitemap is announced.
pub open spec fn robots_of(domain: Seq<char>) -> Seq<char> {
    "User-agent: *\nAllow: /\nAllow: /search\nAllow: /resource/\nDisallow: /api/\nSitemap: "@ + domain
        + "/sitemap.xml\n"@
}

/// Builds the `robots.txt` document (see [`robots_of`]).
pub fn robots_txt(domain: &str) -> (r: String)
    ensures
        r@ == robots_of(domain@),
{
    let mut r = String::from_str(
        "User-agent: *\nAllow: /\nAllow: /search\nAllow: /resource/\nDisallow: /api/\nSitemap: ",
    );
    r.append(domain);
    r.append("/sitemap.xml\n");
    r
}

/// The sitemap entry of the home page.
pub open spec fn home_entry(domain: Seq<char>, today: Seq<char>) -> Seq<char> {
    "<url><loc>"@ + domain + "/</loc><lastmod>"@ + today
        + "</lastmod><priority>1.0</priority><changefreq>daily</changefreq></url>"@
}

/// The sitemap entry of the search page of keyword `kw`.
pub open spec fn keyword_entry(domain: Seq<char>, today: Seq<char>, kw: Seq<char>) -> Seq<char> {
    "<url><loc>"@ + domain + "/search?kw="@ + spec_form_urlencode(kw) + "</loc><lastmod>"@ + today
        + "</lastmod><priority>0.8</priority><changefreq>daily</changefreq></url>"@
}

/// The entries of the keywords `kws`, in order.
pub open spec fn keyword_entries(domain: Seq<char>, today: Seq<char>, kws: Seq<Seq<char>>) -> Seq<
    char,
>
    decreases kws.len(),
{
    if kws.len() == 0 {
        Seq::empty()
    } else {
        keyword_entries(domain, today, kws.drop_last()) + keyword_entry(domain, today, kws.last())
    }
}

/// The sitemap entry of the page of resource `id`.
pub open spec fn resource_entry(domain: Seq<char>, id: Seq<char>) -> Seq<char> {
    "<url><loc>"@ + domain + "/resource/"@ + id + "</loc><priority>0.7</priority></url>"@
}

/// The entries of the resources `ids`, in order.
pub open spec fn resource_entries(domain: Seq<char>, ids: Seq<Seq<char>>) -> Seq<char>
    decreases ids.len(),
{
    if ids.len() == 0 {
        Seq::empty()
    } else {
        resource_entries(domain, ids.drop_last()) + resource_entry(domain, ids.last())
    }
}

/// Number of popular keywords the sitemap lists.
pub const SITEMAP_KEYWORDS: usize = 500;

/// Number of resource pages (the newest) the sitemap lists.
pub const SITEMAP_RESOURCES: usize = 2000;

/// The keywords listed in the sitemap: the popular keywords of the site,
/// or the default ones when there are none.
pub open spec fn sitemap_keywords(hot: Seq<Seq<char>>) -> Seq<Seq<char>> {
    if hot.len() == 0 {
        default_hot_keywords()
    } else {
        hot
    }
}

/// The sitemap document: the home page, then one search page per keyword,
/// then one page per resource of `ids`.
pub open spec fn sitemap_of(
    domain: Seq<char>,
    today: Seq<char>,
    hot: Seq<Seq<char>>,
    ids: Seq<Seq<char>>,
) -> Seq<char> {
    "<?xml version=\"1.0\" encoding=\"UTF-8\"?>"@
        + "<urlset xmlns=\"http://www.sitemaps.org/schemas/sitemap/0.9\">"@ + home_entry(domain, today)
        + keyword_entries(domain, today, sitemap_keywords(hot)) + resource_entries(domain, ids)
        + "</urlset>"@
}

/// Builds the sitemap (see [`sitemap_of`]) for the site at `domain` on the
/// day (UTC) of `now_ms` (Unix milliseconds), with the site's popular
/// keywords `hot` and the ids of the resources to list, `ids` (the site
/// lists its [`SITEMAP_RESOURCES`] newest).
pub fn sitemap_xml(domain: &str, now_ms: i64, hot: &Vec<String>, ids: &Vec<String>) -> (r: String)
    ensures
        r@ == sitemap_of(
            domain@,
            spec_format_date(now_ms),
            hot@.map_values(|s: String| s@),
            ids@.map_values(|s: String| s@),
        ),
{
    let today_text = format_date(now_ms);
    let today: &str = today_text.as_str();
    let ghost hv = hot@.map_values(|s: String| s@);
    let mut xml = String::from_str("<?xml version=\"1.0\" encoding=\"UTF-8\"?>");
    xml.append("<urlset xmlns=\"http://www.sitemaps.org/schemas/sitemap/0.9\">");
    xml.append("<url><loc>");
    xml.append(domain);
    xml.append("/</loc><lastmod>");
    xml.append(today);
    xml.append("</lastmod><priority>1.0</priority><changefreq>daily</changefreq></url>");
    let ghost head = xml@;
    assert(head =~= "<?xml version=\"1.0\" encoding=\"UTF-8\"?>"@
        + "<urlset xmlns=\"http://www.sitemaps.org/schemas/sitemap/0.9\">"@ + home_entry(
        domain@,
        today@,
    ));
    let defaults = hot_keyword_list();
    let n: usize = if hot.len() == 0 { defaults.len() } else { hot.len() };
    let ghost kws = sitemap_keywords(hv);
    assert(n == kws.len());
    let mut i: usize = 0;
    while i < n
        invariant
            i <= n,
            n == kws.len(),
            kws == sitemap_keywords(hv),
            hv == hot@.map_values(|s: String| s@),
            defaults@.map_values(|s: &str| s@) == default_hot_keywords(),
            xml@ == head + keyword_entries(domain@, today@, kws.take(i as int)),
        decreases n - i,
    {
        let enc = if hot.len() == 0 {
            form_urlencode(defaults[i])
        } else {
            form_urlencode(hot[i].as_str())
        };
        assert(enc@ == spec_form_urlencode(kws[i as int]));
        let ghost before = xml@;
        xml.append("<url><loc>");
        xml.append(domain);
        xml.append("/search?kw=");
        xml.append(enc.as_str());
        xml.append("</loc><lastmod>");
        xml.append(today);
        xml.append("</lastmod><priority>0.8</priority><changefreq>daily</changefreq></url>");
        proof {
            assert(kws.take(i + 1).drop_last() =~= kws.take(i as int));
            assert(kws.take(i + 1).last() == kws[i as int]);
            assert(xml@ =~= before + keyword_entry(domain@, today@, kws[i as int]));
        }
        i = i + 1;
    }
    assert(kws.take(n as int) =~= kws);
    let ghost mid = xml@;
    let ghost iv = ids@.map_values(|s: String| s@);
    let mut j: usize = 0;
    while j < ids.len()
        invariant
            j <= ids@.len(),
            iv == ids@.map_values(|s: String| s@),
            xml@ == mid + resource_entries(domain@, iv.take(j as int)),
        decreases ids@.len() - j,
    {
        let ghost before = xml@;
        xml.append("<url><loc>");
        xml.append(domain);
        xml.append("/resource/");
        xml.append(ids[j].as_str());
        xml.append("</loc><priority>0.7</priority></url>");
        proof {
            assert(iv.take(j + 1).drop_last() =~= iv.take(j as int));
            assert(iv.take(j + 1).last() == iv[j as int]);
            assert(xml@ =~= before + resource_entry(domain@, iv[j as int]));
        }
        j = j + 1;
    }
    assert(iv.take(ids@.len() as int) =~= iv);
    xml.append("</urlset>");
    xml
}

// ---------------------------------------------------------------------
// Crawler rate limit
// ---------------------------------------------------------------------

/// Searches a crawler may make in one window.
pub const CRAWLER_SEARCH_LIMIT: u32 = 20;

/// Length of a rate-limit window, in seconds.
pub const CRAWLER_WINDOW_SECS: i64 = 60;

/// The current rate-limit window of crawler searches: when it started (Unix
/// seconds) and how many crawler searches it has allowed.
#[derive(Debug, Clone, Copy, PartialEq, Eq, Structural)]
pub struct CrawlerWindow {
    pub start: i64,
    pub count: u32,
}

/// Whether a search is made or refused; a refused one may be retried after
/// `retry_after_secs` seconds.
#[derive(Debug, Clone, Copy, PartialEq, Eq, Structural)]
pub enum CrawlerGate {
    Allow,
    Limit { retry_after_secs: i64 },
}

impl CrawlerWindow {
    /// A window that has allowed nothing yet.
    pub fn new() -> (r: CrawlerWindow)
        ensures
            r.start == 0,
            r.count == 0,
    {
        CrawlerWindow { start: 0, count: 0 }
    }
}

/// Whether the window `w` is over at `now`: `now` lies before its start or
/// at least [`CRAWLER_WINDOW_SECS`] after it.
pub open spec fn window_over(w: CrawlerWindow, now: i64) -> bool {
    now < w.start || now - w.start >= CRAWLER_WINDOW_SECS
}

/// The decision on a search at `now` (Unix seconds) and the window after
/// it. A search that does not come from a crawler is made and leaves the
/// window as it is. A crawler's search opens a new window (counting it)
/// when the current one is over, is counted in the current window while it
/// has allowed fewer than [`CRAWLER_SEARCH_LIMIT`], and is refused
/// otherwise, to be retried when the window ends.
pub open spec fn crawler_gate_of(w: CrawlerWindow, crawler: bool, now: i64) -> (CrawlerGate, CrawlerWindow) {
    if !crawler {
        (CrawlerGate::Allow, w)
    } else if window_over(w, now) {
        (CrawlerGate::Allow, CrawlerWindow { start: now, count: 1 })
    } else if w.count < CRAWLER_SEARCH_LIMIT {
        (CrawlerGate::Allow, CrawlerWindow { start: w.start, count: (w.count + 1) as u32 })
    } else {
        (
            CrawlerGate::Limit { retry_after_secs: (CRAWLER_WINDOW_SECS - (now - w.start)) as i64 },
            w,
        )
    }
}

/// Decides on a search at `now` (Unix seconds) and updates the window (see
/// [`crawler_gate_of`]).
pub fn crawler_gate(window: &mut CrawlerWindow, crawler: bool, now: i64) -> (r: CrawlerGate)
    ensures
        (r, *final(window)) == crawler_gate_of(*old(window), crawler, now),
{
    if !crawler {
        return CrawlerGate::Allow;
    }
    let elapsed: i128 = now as i128 - window.start as i128;
    if elapsed < 0 || elapsed >= CRAWLER_WINDOW_SECS as i128 {
        *window = CrawlerWindow { start: now, count: 1 };
        CrawlerGate::Allow
    } else if window.count < CRAWLER_SEARCH_LIMIT {
        window.count = window.count + 1;
        CrawlerGate::Allow
    } else {
        CrawlerGate::Limit { retry_after_secs: CRAWLER_WINDOW_SECS - (elapsed as i64) }
    }
}

/// A window never allows more than [`CRAWLER_SEARCH_LIMIT`] crawler
/// searches; a refused search is told to retry within the window's length;
/// a crawler is refused only while its window has reached the limit.
pub proof fn law_crawler_limit(w: CrawlerWindow, crawler: bool, now: i64)
    requires
        w.count <= CRAWLER_SEARCH_LIMIT,
    ensures
        crawler_gate_of(w, crawler, now).1.count <= CRAWLER_SEARCH_LIMIT,
        crawler_gate_of(w, crawler, now).0 matches CrawlerGate::Limit { retry_after_secs }
            ==> 1 <= retry_after_secs <= CRAWLER_WINDOW_SECS,
        crawler_gate_of(w, crawler, now).0 is Limit <==> (crawler && !window_over(w, now)
            && w.count >= CRAWLER_SEARCH_LIMIT),
{
}

} // verus!
