use pansou::model::{Link, SearchRequest, SearchResponse, SearchResult};
use pansou::service::search::{
    completeness, extract_links, extract_pwd, link_type, merge_search_results, parse_tg_results,
    search_cache_key, search_sources, sort_results_at, tg_search_url, time_score, total_score, SearchService,
};

const NOW: i64 = 1_700_000_000_000;
const HOUR: i64 = 3_600_000;

fn make_link(disk_type: &str, url: &str) -> Link {
    Link { disk_type: disk_type.into(), url: url.into(), password: String::new(), datetime: None, work_title: None }
}

fn make_result(unique_id: &str, channel: &str, title: &str, content: &str, links: Vec<Link>, hours_ago: i64) -> SearchResult {
    SearchResult {
        message_id: unique_id.into(),
        unique_id: unique_id.into(),
        channel: channel.into(),
        channel_score: 0,
        datetime: NOW - hours_ago * HOUR,
        title: title.into(),
        content: content.into(),
        links,
        tags: vec![],
        images: vec![],
    }
}

#[test]
fn test_link_type_baidu() {
    assert_eq!(link_type("https://pan.baidu.com/s/1abc123"), "baidu");
}

#[test]
fn test_link_type_quark() {
    assert_eq!(link_type("https://pan.quark.cn/s/abc123"), "quark");
}

#[test]
fn test_link_type_aliyun() {
    assert_eq!(link_type("https://www.alipan.com/s/abc"), "aliyun");
    assert_eq!(link_type("https://www.aliyundrive.com/s/abc"), "aliyun");
}

#[test]
fn test_link_type_tianyi() {
    assert_eq!(link_type("https://cloud.189.cn/t/abc"), "tianyi");
}

#[test]
fn test_link_type_uc() {
    assert_eq!(link_type("https://drive.uc.cn/s/abc"), "uc");
}

#[test]
fn test_link_type_mobile() {
    assert_eq!(link_type("https://yun.139.com/s/abc"), "mobile");
    assert_eq!(link_type("https://caiyun.139.com/s/abc"), "mobile");
}

#[test]
fn test_link_type_115() {
    assert_eq!(link_type("https://115.com/s/abc"), "115");
    assert_eq!(link_type("https://115cdn.com/s/abc"), "115");
    assert_eq!(link_type("https://anxia.com/s/abc"), "115");
}

#[test]
fn test_link_type_xunlei() {
    assert_eq!(link_type("https://pan.xunlei.com/s/abc"), "xunlei");
}

#[test]
fn test_link_type_123() {
    assert_eq!(link_type("https://www.123pan.com/s/abc"), "123");
    assert_eq!(link_type("https://www.123pan.cn/s/abc"), "123");
    assert_eq!(link_type("https://www.123684.com/s/abc"), "123");
}

#[test]
fn test_link_type_magnet() {
    assert_eq!(link_type("magnet:?xt=urn:btih:abc123"), "magnet");
}

#[test]
fn test_link_type_ed2k() {
    assert_eq!(link_type("ed2k://|file|test|123|abc|/"), "ed2k");
}

#[test]
fn test_link_type_others() {
    assert_eq!(link_type("https://example.com/file"), "others");
}

#[test]
fn test_extract_pwd_chinese() {
    let content = "链接：https://pan.baidu.com/s/abc 提取码: abcd";
    assert_eq!(extract_pwd(content), "abcd");
}

#[test]
fn test_extract_pwd_english() {
    let content = "pwd: xyz123";
    assert_eq!(extract_pwd(content), "xyz123");
}

#[test]
fn test_extract_pwd_url_param() {
    let content = "https://pan.baidu.com/s/abc?pwd=test1";
    assert_eq!(extract_pwd(content), "test1");
}

#[test]
fn test_extract_pwd_none() {
    assert_eq!(extract_pwd("no password here"), "");
}

#[test]
fn test_extract_links_filters_others() {
    let content = "https://pan.baidu.com/s/abc https://example.com/file";
    let links = extract_links(content);
    assert_eq!(links.len(), 1);
    assert_eq!(links[0].disk_type, "baidu");
}

#[test]
fn test_extract_links_dedup() {
    let content = "https://pan.baidu.com/s/abc https://pan.baidu.com/s/abc";
    let links = extract_links(content);
    assert_eq!(links.len(), 1);
}

#[test]
fn test_extract_links_with_pwd() {
    let content = "https://pan.baidu.com/s/abc 提取码: xyz1";
    let links = extract_links(content);
    assert_eq!(links[0].password, "xyz1");
}

#[test]
fn test_completeness_scoring() {
    let full = SearchResult {
        unique_id: "tg_ch1_123".into(),
        message_id: "123".into(),
        channel: "tg".into(),
        channel_score: 100,
        datetime: NOW,
        title: "A long enough title here".into(),
        content: "some content".into(),
        links: vec![make_link("baidu", "http://a"), make_link("quark", "http://b")],
        tags: vec!["tag1".into()],
        images: vec![],
    };
    let minimal = SearchResult {
        unique_id: "".into(),
        message_id: "".into(),
        channel: "".into(),
        channel_score: 0,
        datetime: NOW,
        title: "x".into(),
        content: "".into(),
        links: vec![],
        tags: vec![],
        images: vec![],
    };
    assert!(completeness(&full) > completeness(&minimal));
    assert_eq!(completeness(&full), 10 + 4 + 3 + 1 + 2);
}

#[test]
fn test_time_score_recent() {
    assert_eq!(time_score(NOW, NOW), 500);
}

#[test]
fn test_time_score_old() {
    assert_eq!(time_score(NOW, NOW - 400 * 24 * HOUR), 20);
    assert_eq!(time_score(NOW, NOW - 48 * HOUR), 400);
}

#[test]
fn test_time_score_week() {
    assert_eq!(time_score(NOW, NOW - 5 * 24 * HOUR), 300);
}

#[test]
fn time_score_boundaries() {
    assert_eq!(time_score(NOW, NOW - 24 * HOUR), 500);
    assert_eq!(time_score(NOW, NOW - 25 * HOUR), 400);
    assert_eq!(time_score(NOW, NOW - 30 * 24 * HOUR), 200);
    assert_eq!(time_score(NOW, NOW - 90 * 24 * HOUR), 100);
    assert_eq!(time_score(NOW, NOW - 365 * 24 * HOUR), 50);
}

#[test]
fn test_total_score_ordering() {
    let recent = make_result("a", "tg", "t", "", vec![], 0);
    let old = make_result("b", "tg", "t", "", vec![], 400);
    assert!(total_score(&recent, NOW) > total_score(&old, NOW));
    let mut scored = make_result("c", "tg", "t", "", vec![], 0);
    scored.channel_score = 40;
    assert_eq!(total_score(&scored, NOW), 540);
}

#[test]
fn sort_orders_by_score_descending_and_keeps_ties_in_order() {
    let mut v = vec![
        make_result("old", "", "t", "", vec![], 24 * 400),
        make_result("new1", "", "t", "", vec![], 1),
        make_result("mid", "", "t", "", vec![], 24 * 10),
        make_result("new2", "", "t", "", vec![], 2),
    ];
    sort_results_at(&mut v, NOW);
    let ids: Vec<&str> = v.iter().map(|r| r.unique_id.as_str()).collect();
    assert_eq!(ids, vec!["new1", "new2", "mid", "old"]);
}

#[test]
fn test_merge_search_results_prefers_more_complete() {
    let less = SearchResult {
        unique_id: "same_id".into(),
        message_id: "1".into(),
        channel: "tg".into(),
        channel_score: 100,
        datetime: NOW,
        title: "x".into(),
        content: "".into(),
        links: vec![],
        tags: vec![],
        images: vec![],
    };
    let more = SearchResult {
        unique_id: "same_id".into(),
        message_id: "1".into(),
        channel: "tg".into(),
        channel_score: 100,
        datetime: NOW,
        title: "A much better title".into(),
        content: "full content here".into(),
        links: vec![make_link("baidu", "http://a")],
        tags: vec!["tag".into()],
        images: vec![],
    };
    let merged = merge_search_results(vec![less], vec![more]);
    assert_eq!(merged.len(), 1);
    assert!(merged[0].content.contains("full content"));
}

#[test]
fn merge_keys_fall_back_to_title_and_channel() {
    let mut a = make_result("", "c1", "T", "", vec![], 0);
    a.message_id = "m".into();
    let mut b = make_result("", "c2", "T2", "", vec![], 0);
    b.message_id = "m".into();
    let mut c = make_result("", "c1", "T", "", vec![], 0);
    c.message_id = "".into();
    let mut d = make_result("", "c1", "T", "x", vec![], 0);
    d.message_id = "".into();
    let merged = merge_search_results(vec![a, b], vec![c, d]);
    assert_eq!(merged.len(), 2);
    assert_eq!(merged[0].content, "x");
    assert_eq!(merged[1].title, "T2");
}

#[test]
fn merge_does_not_key_by_message_id() {
    let mut a = make_result("", "x", "A", "", vec![], 0);
    a.message_id = "1".into();
    let mut b = make_result("", "y", "B", "", vec![], 0);
    b.message_id = "1".into();
    let merged = merge_search_results(vec![a], vec![b]);
    assert_eq!(merged.len(), 2);
}

#[test]
fn search_test_urlencoding() {
    assert_eq!(tg_search_url("ch", "hello world"), "https://t.me/s/ch?q=hello+world");
}

#[test]
fn test_search_cache_key_deterministic() {
    let req1 = SearchRequest {
        keyword: "test".into(),
        source_type: "all".into(),
        cloud_types: vec!["baidu".into(), "quark".into()],
        channels: vec!["ch1".into(), "ch2".into()],
        ..Default::default()
    };
    let req2 = SearchRequest {
        keyword: "test".into(),
        source_type: "all".into(),
        cloud_types: vec!["quark".into(), "baidu".into()],
        channels: vec!["ch2".into(), "ch1".into()],
        ..Default::default()
    };
    assert_eq!(search_cache_key(&req1), search_cache_key(&req2));
    assert_eq!(search_cache_key(&req1), "kw=test|src=all");
}

#[test]
fn test_search_cache_key_different_kw() {
    let req1 = SearchRequest { keyword: "abc".into(), ..Default::default() };
    let req2 = SearchRequest { keyword: "xyz".into(), ..Default::default() };
    assert_ne!(search_cache_key(&req1), search_cache_key(&req2));
    assert_eq!(search_cache_key(&req1), "kw=abc|src=all");
}

#[test]
fn sources_follow_the_source_type() {
    let mut req = SearchRequest::default();
    assert_eq!(search_sources(&req), (true, true));
    req.source_type = "tg".into();
    assert_eq!(search_sources(&req), (true, false));
    req.source_type = "plugin".into();
    assert_eq!(search_sources(&req), (false, true));
    req.source_type = "other".into();
    assert_eq!(search_sources(&req), (false, false));
}

#[test]
fn test_search_cache_hit() {
    let mut service = SearchService::new(2, 5 * 60 * 1000, 512);
    let req = SearchRequest { keyword: "cache_test_xyz".into(), channels: vec![], ..Default::default() };
    let resp1 = service.complete(&req, vec![], vec![], NOW);
    let resp2 = service.cached_response(&req, NOW + 1000).expect("cached");
    assert_eq!(resp1.total, resp2.total);
    assert!(resp2.cache_hit);
    assert!(!resp1.cache_hit);
}

#[test]
fn test_search_force_refresh_bypasses_cache() {
    let mut service = SearchService::new(2, 5 * 60 * 1000, 512);
    let mut req = SearchRequest { keyword: "force_refresh_test".into(), channels: vec![], force_refresh: false, ..Default::default() };
    let _resp1 = service.complete(&req, vec![], vec![], NOW);
    req.force_refresh = true;
    assert!(service.cached_response(&req, NOW).is_none());
    req.force_refresh = false;
    assert!(service.cached_response(&req, NOW).is_some());
}

#[test]
fn cached_answer_expires_with_its_lifetime() {
    let mut service = SearchService::new(2, 1000, 512);
    let req = SearchRequest { keyword: "k".into(), ..Default::default() };
    service.complete(&req, vec![], vec![], NOW);
    assert!(service.cached_response(&req, NOW + 999).is_some());
    assert!(service.cached_response(&req, NOW + 1000).is_none());
    assert_eq!(service.cache_len(), 0);
}

#[test]
fn test_cache_eviction_expired_entries_removed() {
    let mut service = SearchService::new(2, 300 * 1000, 512);
    let resp = SearchResponse { total: 1, cache_hit: false, results: vec![], merged_by_type: None };
    service.put_entry("expired_key".to_string(), resp, NOW - 1000);
    assert_eq!(service.cache_len(), 1);
    let req = SearchRequest { keyword: "expired_key_lookup".into(), channels: vec![], source_type: "all".into(), ..Default::default() };
    service.complete(&req, vec![], vec![], NOW);
    assert!(!service.contains_key("expired_key"));
}

#[test]
fn test_cache_max_size_eviction() {
    let mut service = SearchService::new(2, 300 * 1000, 3);
    for i in 0..5 {
        let key = format!("fill_key_{}", i);
        let resp = SearchResponse { total: i, cache_hit: false, results: vec![], merged_by_type: None };
        service.put_entry(key, resp, NOW + 300 * 1000 + (i as i64) * 1000);
    }
    assert_eq!(service.cache_len(), 5);
    let req = SearchRequest { keyword: "new_entry".into(), channels: vec![], source_type: "all".into(), ..Default::default() };
    service.complete(&req, vec![], vec![], NOW);
    assert!(service.cache_len() <= 3, "cache size {} exceeds max 3", service.cache_len());
    assert!(!service.contains_key("fill_key_0"));
    assert!(!service.contains_key("fill_key_1"));
    assert!(service.contains_key("fill_key_4"));
    assert!(service.contains_key("kw=new_entry|src=all"));
}

#[test]
fn complete_merges_and_orders_results() {
    let mut service = SearchService::new(0, 1000, 0);
    assert_eq!(service.concurrency(), 1);
    let req = SearchRequest { keyword: "k".into(), ..Default::default() };
    let tg = vec![make_result("a", "tg:x", "A", "", vec![], 24 * 100)];
    let plugins = vec![make_result("b", "", "B", "", vec![], 1), make_result("a", "", "A", "more", vec![], 24 * 100)];
    let resp = service.complete(&req, tg, plugins, NOW);
    assert_eq!(resp.total, 2);
    assert_eq!(resp.results[0].unique_id, "b");
    assert_eq!(resp.results[1].content, "more");
    assert_eq!(service.cache_len(), 1);
}

#[test]
fn tg_page_is_read_into_results() {
    let html = "<html><body>\
        <div class=\"tgme_widget_message_wrap\"><div class=\"tgme_widget_message\" data-post=\"chan/42\">\
        <div class=\"tgme_widget_message_text\">流浪地球 4K\nhttps://pan.quark.cn/s/abc123 提取码: abcd</div>\
        <a class=\"tgme_widget_message_date\"><time datetime=\"2024-01-02T00:00:00+00:00\">Jan 2</time></a>\
        </div></div>\
        <div class=\"tgme_widget_message_wrap\"><div class=\"tgme_widget_message\" data-post=\"chan/43\">\
        <div class=\"tgme_widget_message_text\">其他 https://pan.quark.cn/s/zzz</div></div></div>\
        <div class=\"tgme_widget_message_wrap\"><div class=\"tgme_widget_message\" data-post=\"chan\">\
        <div class=\"tgme_widget_message_text\">流浪地球 https://pan.quark.cn/s/yyy</div></div></div>\
        </body></html>";
    let results = parse_tg_results(html, "chan", "流浪", NOW);
    assert_eq!(results.len(), 1);
    let r = &results[0];
    assert_eq!(r.message_id, "42");
    assert_eq!(r.unique_id, "chan_42");
    assert_eq!(r.channel, "tg:chan");
    assert_eq!(r.channel_score, 40);
    assert_eq!(r.datetime, 1_704_153_600_000);
    assert_eq!(r.title, "流浪地球 4K");
    assert_eq!(r.links.len(), 1);
    assert_eq!(r.links[0].url, "https://pan.quark.cn/s/abc123");
    assert_eq!(r.links[0].disk_type, "quark");
    assert_eq!(r.links[0].password, "abcd");
}

#[test]
fn tg_titles_are_cut_to_48_characters() {
    let long: String = std::iter::repeat("字").take(50).collect();
    let html = format!(
        "<div class=\"tgme_widget_message_wrap\"><div class=\"tgme_widget_message\" data-post=\"c/1\">\
         <div class=\"tgme_widget_message_text\">{} https://pan.baidu.com/s/1</div></div></div>",
        long
    );
    let results = parse_tg_results(&html, "c", "字", NOW);
    assert_eq!(results.len(), 1);
    let expected: String = std::iter::repeat("字").take(48).collect::<String>() + "...";
    assert_eq!(results[0].title, expected);
    assert_eq!(results[0].datetime, NOW);
}

#[test]
fn cached_answer_repeats_the_fresh_one() {
    let mut service = SearchService::new(2, 5 * 60 * 1000, 512);
    let req = SearchRequest { keyword: "cache_test_xyz".into(), ..Default::default() };
    let tg = vec![make_result("a", "tg:x", "A", "", vec![make_link("quark", "https://pan.quark.cn/s/1")], 1)];
    let first = service.complete(&req, tg, vec![], NOW);
    let second = service.cached_response(&req, NOW + 1000).expect("cached");
    assert!(!first.cache_hit);
    assert!(second.cache_hit);
    assert_eq!(first.total, second.total);
    assert_eq!(first.results.len(), second.results.len());
    assert_eq!(first.results[0].unique_id, second.results[0].unique_id);
    assert_eq!(second.merged_by_type.as_ref().map(|g| g.len()), Some(1));
}

#[test]
fn answers_keep_only_asked_drive_kinds_and_group_links() {
    let mut service = SearchService::new(2, 1000, 16);
    let tg = vec![
        make_result("a", "tg:x", "A", "", vec![make_link("quark", "https://pan.quark.cn/s/1"), make_link("baidu", "https://pan.baidu.com/s/2")], 1),
        make_result("b", "tg:y", "B", "", vec![make_link("aliyun", "https://www.alipan.com/s/3")], 2),
        make_result("c", "tg:z", "C", "", vec![make_link("quark", "https://pan.quark.cn/s/4")], 3),
    ];
    let req = SearchRequest { keyword: "k".into(), cloud_types: vec!["quark".into()], ..Default::default() };
    let resp = service.complete(&req, tg, vec![], NOW);
    assert_eq!(resp.total, 2);
    assert!(resp.results.iter().all(|r| r.links.iter().all(|l| l.disk_type == "quark")));
    assert_eq!(resp.results[0].links.len(), 1);
    let groups = resp.merged_by_type.expect("grouped");
    assert_eq!(groups.len(), 1);
    assert_eq!(groups[0].disk_type, "quark");
    assert_eq!(groups[0].links.len(), 2);
    assert_eq!(groups[0].links[0].url, "https://pan.quark.cn/s/1");
    assert_eq!(groups[0].links[0].note, "A");
    assert_eq!(groups[0].links[1].source, "tg:z");
    // The same keyword without a kind filter is served from the cache in full.
    let all = SearchRequest { keyword: "k".into(), result_type: "results".into(), ..Default::default() };
    let hit = service.cached_response(&all, NOW).expect("cached");
    assert_eq!(hit.total, 3);
    assert!(hit.merged_by_type.is_none());
}
