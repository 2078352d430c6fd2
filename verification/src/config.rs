//! Service settings.
use vstd::prelude::*;

verus! {

broadcast use vstd::string::group_string_axioms;

/// Settings of the service. Every setting missing from the configuration
/// file takes its default value.
#[derive(Debug)]
pub struct AppConfig {
    pub host: String,
    pub port: u16,
    pub log_level: String,
    pub log_file: String,
    pub concurrency: usize,
    /// Lifetime of cached search answers, in seconds.
    pub cache_ttl: u64,
    pub max_cache_size: usize,
    /// Telegram channels searched when a request names none.
    pub channels: Vec<String>,
    pub post_search_endpoint: String,
    /// Public address of the site (for the sitemap and the pages).
    pub domain: String,
}

impl Default for AppConfig {
    /// Listens on all interfaces, port 8888; logs at `info` to standard
    /// output; 3 concurrent channel fetches; answers cached 300 s, at most
    /// 512 of them; searches channel `tgsearchers6`; no post-search
    /// endpoint and no domain.
    fn default() -> (r: Self)
        ensures
            r.host@ == "0.0.0.0"@,
            r.port == 8888,
            r.log_level@ == "info"@,
            r.log_file@ == Seq::<char>::empty(),
            r.concurrency == 3,
            r.cache_ttl == 300,
            r.max_cache_size == 512,
            r.channels@.map_values(|s: String| s@) == seq!["tgsearchers6"@],
            r.post_search_endpoint@ == Seq::<char>::empty(),
            r.domain@ == Seq::<char>::empty(),
    {
        let mut channels: Vec<String> = Vec::new();
        channels.push("tgsearchers6".to_owned());
        assert(channels@.map_values(|s: String| s@) =~= seq!["tgsearchers6"@]);
        AppConfig {
            host: "0.0.0.0".to_owned(),
            port: 8888,
            log_level: "info".to_owned(),
            log_file: String::new(),
            concurrency: 3,
            cache_ttl: 300,
            max_cache_size: 512,
            channels,
            post_search_endpoint: String::new(),
            domain: String::new(),
        }
    }
}

impl AppConfig {
    /// The lifetime of cached search answers in milliseconds.
    pub fn cache_ttl_ms(&self) -> (r: i64)
        requires
            self.cache_ttl * 1000 <= i64::MAX,
        ensures
            r == self.cache_ttl * 1000,
    {
        (self.cache_ttl * 1000) as i64
    }
}

} // verus!
