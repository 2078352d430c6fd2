use pansou::model::CheckItem;
use pansou::plugin::pan666::Pan666Plugin;
use pansou::service::check::{build_result, normalize_share_link, quick_check, ttl_for_state, CheckService};

const NOW: i64 = 1_700_000_000_000;

fn make_item(disk_type: &str, url: &str) -> CheckItem {
    CheckItem { disk_type: disk_type.into(), url: url.into(), password: String::new() }
}

#[test]
fn test_ttl_for_state_ok() {
    assert_eq!(ttl_for_state("ok"), 24 * 3600);
}

#[test]
fn test_ttl_for_state_bad() {
    assert_eq!(ttl_for_state("bad"), 6 * 3600);
}

#[test]
fn test_ttl_for_state_locked() {
    assert_eq!(ttl_for_state("locked"), 12 * 3600);
}

#[test]
fn test_ttl_for_state_unsupported() {
    assert_eq!(ttl_for_state("unsupported"), 24 * 3600);
}

#[test]
fn test_ttl_for_state_default() {
    assert_eq!(ttl_for_state("unknown"), 30 * 60);
}

#[test]
fn test_normalize_empty_url() {
    assert_eq!(normalize_share_link("baidu", "", ""), "");
}

#[test]
fn test_normalize_adds_pwd_for_baidu() {
    let result = normalize_share_link("baidu", "https://pan.baidu.com/s/abc", "testpwd");
    assert!(result.contains("pwd=testpwd"));
}

#[test]
fn test_normalize_no_pwd_for_non_baidu_quark_uc() {
    let result = normalize_share_link("115", "https://115.com/s/abc", "testpwd");
    assert!(!result.contains("pwd="));
}

#[test]
fn test_normalize_keeps_existing_pwd() {
    let result = normalize_share_link("baidu", "https://pan.baidu.com/s/abc?pwd=existing", "newpwd");
    assert!(result.contains("pwd=existing"));
    assert!(!result.contains("pwd=newpwd"));
}

#[test]
fn test_normalize_removes_fragment() {
    let result = normalize_share_link("baidu", "https://pan.baidu.com/s/abc#section", "");
    assert!(!result.contains('#'));
}

#[test]
fn normalize_exact_values() {
    assert_eq!(
        normalize_share_link("quark", " https://pan.quark.cn/s/abc#x ", "p1"),
        "https://pan.quark.cn/s/abc?pwd=p1"
    );
    assert_eq!(normalize_share_link("baidu", "not a url", "p"), "not a url");
}

#[test]
fn test_quick_check_known_type() {
    let item = make_item("baidu", "https://pan.baidu.com/s/abc");
    let result = quick_check(&item, "https://pan.baidu.com/s/abc", NOW);
    assert_eq!(result.state, "uncertain");
}

#[test]
fn test_quick_check_bad_link() {
    let item = make_item("baidu", "not-a-valid-url");
    let result = quick_check(&item, "not-a-valid-url", NOW);
    assert_eq!(result.state, "bad");
}

#[test]
fn test_quick_check_unsupported() {
    let item = make_item("magnet", "magnet:?xt=urn:btih:abc");
    let result = quick_check(&item, "magnet:?xt=urn:btih:abc", NOW);
    assert_eq!(result.state, "unsupported");
    assert_eq!(result.expires_at, NOW + 86_400_000);
}

#[test]
fn test_check_empty_items() {
    let mut service = CheckService::new();
    let resp = service.check(&[], NOW);
    assert!(resp.results.is_empty());
}

#[test]
fn test_check_with_items() {
    let mut service = CheckService::new();
    let items = vec![make_item("baidu", "https://pan.baidu.com/s/abc")];
    let resp = service.check(&items, NOW);
    assert_eq!(resp.results.len(), 1);
    assert_eq!(resp.results[0].disk_type, "baidu");
    assert!(!resp.results[0].cache_hit);
}

#[test]
fn test_check_cache_hit() {
    let mut service = CheckService::new();
    let items = vec![make_item("baidu", "https://pan.baidu.com/s/abc")];
    let resp1 = service.check(&items, NOW);
    assert!(!resp1.results[0].cache_hit);
    let resp2 = service.check(&items, NOW + 1000);
    assert!(resp2.results[0].cache_hit);
}

#[test]
fn test_check_expired_cache() {
    let mut service = CheckService::new();
    let items = vec![make_item("baidu", "https://pan.baidu.com/s/expired")];
    let _resp1 = service.check(&items, NOW);
    service.clear_cache();
    let resp2 = service.check(&items, NOW);
    assert!(!resp2.results[0].cache_hit);
}

#[test]
fn check_verdict_expires_after_its_lifetime() {
    let mut service = CheckService::new();
    let items = vec![make_item("baidu", "https://pan.baidu.com/s/t")];
    let first = service.check(&items, NOW);
    let later = service.check(&items, first.results[0].expires_at + 1);
    assert!(!later.results[0].cache_hit);
}

#[test]
fn test_build_result_fields() {
    let item = make_item("quark", "https://pan.quark.cn/s/test");
    let result = build_result(&item, "https://pan.quark.cn/s/test", "ok", false, "valid", NOW);
    assert_eq!(result.disk_type, "quark");
    assert_eq!(result.url, "https://pan.quark.cn/s/test");
    assert_eq!(result.state, "ok");
    assert!(!result.cache_hit);
    assert_eq!(result.summary, Some("valid".into()));
    assert!(result.checked_at > 0);
    assert!(result.expires_at > result.checked_at);
    assert!(result.normalized_url.is_some());
}

#[test]
fn check_test_urlencoding() {
    let url = Pan666Plugin.page_url("hello world", 0);
    assert!(url.contains("filter[q]=hello+world&"));
    let url = Pan666Plugin.page_url("abc123", 1);
    assert!(url.contains("filter[q]=abc123&"));
}
