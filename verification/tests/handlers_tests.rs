use pansou::config::AppConfig;
use pansou::handlers::{
    build_request_from_query, classify_disk_type_from_url, format_domain, metric_outcome,
    normalize_search_request, parse_i32, parse_usize, split_csv, type_friendly, MetricOutcome,
};
use pansou::model::{MetricRequest, SearchRequest};

fn query(pairs: &[(&str, &str)]) -> Vec<(String, String)> {
    pairs.iter().map(|(k, v)| (k.to_string(), v.to_string())).collect()
}

#[test]
fn handlers_test_split_csv_basic() {
    let s = "a,b,c".to_string();
    let result = split_csv(Some(&s));
    assert_eq!(result, vec!["a", "b", "c"]);
}

#[test]
fn handlers_test_split_csv_with_spaces() {
    let s = "a, b ,c".to_string();
    let result = split_csv(Some(&s));
    assert_eq!(result, vec!["a", "b", "c"]);
}

#[test]
fn handlers_test_split_csv_empty_parts() {
    let s = "a,,b".to_string();
    let result = split_csv(Some(&s));
    assert_eq!(result, vec!["a", "b"]);
}

#[test]
fn handlers_test_split_csv_none() {
    let result: Vec<String> = split_csv(None);
    assert!(result.is_empty());
}

#[test]
fn handlers_test_split_csv_empty_string() {
    let s = String::new();
    let result = split_csv(Some(&s));
    assert!(result.is_empty());
}

#[test]
fn handlers_test_normalize_search_request_defaults() {
    let mut req = SearchRequest::default();
    normalize_search_request(&mut req);
    assert_eq!(req.source_type, "all");
}

#[test]
fn handlers_test_normalize_search_request_tg_clears_plugins() {
    let mut req = SearchRequest { source_type: "tg".into(), plugins: vec!["p1".into()], ..Default::default() };
    normalize_search_request(&mut req);
    assert!(req.plugins.is_empty());
}

#[test]
fn handlers_test_normalize_search_request_plugin_clears_channels() {
    let mut req = SearchRequest { source_type: "plugin".into(), channels: vec!["ch1".into()], ..Default::default() };
    normalize_search_request(&mut req);
    assert!(req.channels.is_empty());
}

#[test]
fn handlers_test_build_request_from_query_basic() {
    let config = AppConfig::default();
    let q = query(&[("kw", "test_kw")]);
    let req = build_request_from_query(&config.channels, &q);
    assert_eq!(req.keyword, "test_kw");
}

#[test]
fn handlers_test_build_request_from_query_with_channels() {
    let config = AppConfig::default();
    let q = query(&[("kw", "test"), ("channels", "ch1,ch2")]);
    let req = build_request_from_query(&config.channels, &q);
    assert_eq!(req.channels, vec!["ch1", "ch2"]);
}

#[test]
fn handlers_test_build_request_from_query_with_refresh() {
    let config = AppConfig::default();
    let q = query(&[("kw", "test"), ("refresh", "true")]);
    let req = build_request_from_query(&config.channels, &q);
    assert!(req.force_refresh);
}

#[test]
fn mod_test_split_csv_basic() {
    let s = "a,b,c".to_string();
    let result = split_csv(Some(&s));
    assert_eq!(result, vec!["a", "b", "c"]);
}

#[test]
fn mod_test_split_csv_with_spaces() {
    let s = "a, b ,c".to_string();
    let result = split_csv(Some(&s));
    assert_eq!(result, vec!["a", "b", "c"]);
}

#[test]
fn mod_test_split_csv_empty_parts() {
    let s = "a,,b".to_string();
    let result = split_csv(Some(&s));
    assert_eq!(result, vec!["a", "b"]);
}

#[test]
fn mod_test_split_csv_none() {
    let result: Vec<String> = split_csv(None);
    assert!(result.is_empty());
}

#[test]
fn mod_test_split_csv_empty_string() {
    let s = String::new();
    let result = split_csv(Some(&s));
    assert!(result.is_empty());
}

#[test]
fn mod_test_normalize_search_request_defaults() {
    let mut req = SearchRequest::default();
    normalize_search_request(&mut req);
    assert_eq!(req.source_type, "all");
}

#[test]
fn mod_test_normalize_search_request_tg_clears_plugins() {
    let mut req = SearchRequest { source_type: "tg".into(), plugins: vec!["p1".into()], ..Default::default() };
    normalize_search_request(&mut req);
    assert!(req.plugins.is_empty());
}

#[test]
fn mod_test_normalize_search_request_plugin_clears_channels() {
    let mut req = SearchRequest { source_type: "plugin".into(), channels: vec!["ch1".into()], ..Default::default() };
    normalize_search_request(&mut req);
    assert!(req.channels.is_empty());
}

#[test]
fn mod_test_build_request_from_query_basic() {
    let config = AppConfig::default();
    let q = query(&[("kw", "test_kw")]);
    let req = build_request_from_query(&config.channels, &q);
    assert_eq!(req.keyword, "test_kw");
}

#[test]
fn mod_test_build_request_from_query_with_channels() {
    let config = AppConfig::default();
    let q = query(&[("kw", "test"), ("channels", "ch1,ch2")]);
    let req = build_request_from_query(&config.channels, &q);
    assert_eq!(req.channels, vec!["ch1", "ch2"]);
}

#[test]
fn mod_test_build_request_from_query_with_refresh() {
    let config = AppConfig::default();
    let q = query(&[("kw", "test"), ("refresh", "true")]);
    let req = build_request_from_query(&config.channels, &q);
    assert!(req.force_refresh);
}

#[test]
fn build_request_uses_default_channels_and_parses_fields() {
    let config = AppConfig::default();
    let q = query(&[
        ("kw", "三体"),
        ("conc", "-7"),
        ("src", "plugin"),
        ("plugins", "pan666, jikepan"),
        ("cloud_types", "baidu,,quark"),
        ("ext", "{\"title_en\":\"x\"}"),
    ]);
    let req = build_request_from_query(&config.channels, &q);
    assert_eq!(req.keyword, "三体");
    assert_eq!(req.concurrency, -7);
    assert_eq!(req.source_type, "plugin");
    assert!(req.channels.is_empty());
    assert_eq!(req.plugins, vec!["pan666", "jikepan"]);
    assert_eq!(req.cloud_types, vec!["baidu", "quark"]);
    assert_eq!(req.ext.len(), 1);
    assert_eq!(req.ext[0].0, "title_en");
    let q2 = query(&[("kw", "x")]);
    let req2 = build_request_from_query(&config.channels, &q2);
    assert_eq!(req2.channels, vec!["tgsearchers6"]);
    assert_eq!(req2.source_type, "all");
    assert!(!req2.force_refresh);
    assert_eq!(req2.concurrency, 6);
    let req3 = build_request_from_query(&config.channels, &query(&[("kw", "x"), ("conc", "many")]));
    assert_eq!(req3.concurrency, 6);
}

#[test]
fn parse_numbers_like_str_parse() {
    assert_eq!(parse_i32("42"), Some(42));
    assert_eq!(parse_i32("-2147483648"), Some(i32::MIN));
    assert_eq!(parse_i32("2147483648"), None);
    assert_eq!(parse_i32("+5"), Some(5));
    assert_eq!(parse_i32(""), None);
    assert_eq!(parse_i32("1a"), None);
    assert_eq!(parse_usize("+3"), Some(3));
    assert_eq!(parse_usize("-3"), None);
    assert_eq!(parse_usize("18446744073709551615"), Some(usize::MAX));
    assert_eq!(parse_usize("18446744073709551616"), None);
    assert_eq!(parse_usize("x"), None);
}

#[test]
fn domain_and_labels() {
    assert_eq!(format_domain(""), "");
    assert_eq!(format_domain("https://a.com///"), "https://a.com");
    assert_eq!(type_friendly("quark"), "夸克网盘");
    assert_eq!(type_friendly("pikpak"), "pikpak");
    assert_eq!(classify_disk_type_from_url("HTTPS://PAN.BAIDU.COM/s/1"), "baidu");
}

#[test]
fn metric_click_records_known_links() {
    let click = MetricRequest {
        metric_type: "click".into(),
        keyword: "三体".into(),
        title: "三体 全集".into(),
        url: "https://pan.quark.cn/s/abc".into(),
        channel: "tg:x".into(),
    };
    match metric_outcome(&click) {
        MetricOutcome::Click { store } => assert_eq!(store, Some("quark".to_string())),
        other => panic!("unexpected {:?}", other),
    }
    let other_link = MetricRequest { url: "https://example.com/a".into(), ..click.clone() };
    match metric_outcome(&other_link) {
        MetricOutcome::Click { store } => assert_eq!(store, None),
        other => panic!("unexpected {:?}", other),
    }
    let blank = MetricRequest { title: "   ".into(), ..click.clone() };
    assert!(matches!(metric_outcome(&blank), MetricOutcome::Rejected));
    let view = MetricRequest { metric_type: "view".into(), ..click };
    assert!(matches!(metric_outcome(&view), MetricOutcome::Unknown));
}
