use pansou::assets::{asset_path, cache_control_for, content_type_for};
use pansou::auth::{auth_gate, claims_of, generate_token, invalid_token_rejection, issue_token, token_expiry, validate_token, AuthDecision};
use pansou::config::AppConfig;
use pansou::constants::{DiskType, SourceType};
use pansou::text::{str_replace, u64_text, i64_text};

#[test]
fn default_config() {
    let c = AppConfig::default();
    assert_eq!(c.host, "0.0.0.0");
    assert_eq!(c.port, 8888);
    assert_eq!(c.log_level, "info");
    assert_eq!(c.concurrency, 3);
    assert_eq!(c.cache_ttl, 300);
    assert_eq!(c.cache_ttl_ms(), 300_000);
    assert_eq!(c.max_cache_size, 512);
    assert_eq!(c.channels, vec!["tgsearchers6"]);
    assert!(c.domain.is_empty());
}

#[test]
fn auth_decisions() {
    assert!(matches!(auth_gate(false, "/api/search", ""), AuthDecision::Pass));
    assert!(matches!(auth_gate(true, "/api/health", ""), AuthDecision::Pass));
    assert!(matches!(auth_gate(true, "/api/auth/login", ""), AuthDecision::Pass));
    match auth_gate(true, "/api/search", "") {
        AuthDecision::Reject { error, code } => {
            assert_eq!(code, "AUTH_TOKEN_MISSING");
            assert_eq!(error, "未授权：缺少认证令牌");
        }
        other => panic!("unexpected {:?}", other),
    }
    match auth_gate(true, "/api/search", "Token abc") {
        AuthDecision::Reject { code, .. } => assert_eq!(code, "AUTH_TOKEN_INVALID_FORMAT"),
        other => panic!("unexpected {:?}", other),
    }
    match auth_gate(true, "/api/search", "Bearer abc.def") {
        AuthDecision::Check { token } => assert_eq!(token, "abc.def"),
        other => panic!("unexpected {:?}", other),
    }
    match invalid_token_rejection() {
        AuthDecision::Reject { code, .. } => assert_eq!(code, "AUTH_TOKEN_INVALID"),
        other => panic!("unexpected {:?}", other),
    }
    assert_eq!(token_expiry(1_000, 2), 8_200);
}

#[test]
fn assets_paths_and_caching() {
    assert_eq!(asset_path("/static/css/a.css"), "css/a.css");
    assert_eq!(asset_path("/"), "index.html");
    assert_eq!(asset_path("//x.js"), "x.js");
    assert_eq!(asset_path("/static/"), "index.html");
    assert_eq!(cache_control_for("css/a.css"), "public, max-age=604800");
    assert_eq!(cache_control_for("img/a.min.png"), "public, max-age=2592000");
    assert_eq!(cache_control_for("index.html"), "public, max-age=86400");
    assert_eq!(cache_control_for("js"), "public, max-age=604800");
    assert_eq!(content_type_for("a.css"), "text/css");
    assert_eq!(content_type_for("a.unknownext"), "application/octet-stream");
}

#[test]
fn constants_round_trip() {
    for d in DiskType::all() {
        assert_eq!(DiskType::from_str(d.as_str()), d);
    }
    assert_eq!(DiskType::all().len(), 11);
    assert_eq!(DiskType::display_order(), DiskType::all());
    assert_eq!(DiskType::from_str("nope"), DiskType::Others);
    assert_eq!(DiskType::Quark.friendly_name(), "夸克网盘");
    assert_eq!(DiskType::from_url("HTTPS://PAN.QUARK.CN/s/1"), DiskType::Quark);
    assert_eq!(SourceType::from_str("tg"), SourceType::Tg);
    assert_eq!(SourceType::from_str("x"), SourceType::All);
    assert_eq!(SourceType::Plugin.as_str(), "plugin");
}

#[test]
fn text_helpers() {
    assert_eq!(str_replace("a-b--c", "-", "+"), "a+b++c");
    assert_eq!(str_replace("aaa", "aa", "b"), "ba");
    assert_eq!(u64_text(0), "0");
    assert_eq!(u64_text(1234567890), "1234567890");
    assert_eq!(i64_text(i64::MIN), "-9223372036854775808");
    assert_eq!(i64_text(-5), "-5");
}

#[test]
fn page_filters_format_unix_seconds() {
    assert_eq!(pansou::clock::timestamp_to_iso8601(1_704_153_600), Some("2024-01-02T00:00:00Z".to_string()));
    assert_eq!(pansou::clock::timestamp_to_date(1_704_157_260), Some("2024-01-02 01:01".to_string()));
    assert_eq!(pansou::clock::timestamp_to_iso8601(i64::MAX), None);
}

#[test]
fn tokens_round_trip_and_are_refused_when_wrong() {
    let (token, exp) = generate_token("alice", "s3cret", 24).expect("issued");
    assert_eq!(token.matches('.').count(), 2);
    let claims = validate_token(&token, "s3cret").expect("accepted");
    assert_eq!(claims.username, "alice");
    assert_eq!(claims.exp, exp);
    assert!(validate_token(&token, "other").is_none());
    assert!(validate_token("not.a.token", "s3cret").is_none());
    let (old, old_exp) = issue_token("bob", "s3cret", 1_000_000, 1).expect("issued");
    assert_eq!(old_exp, 1_003_600);
    assert!(validate_token(&old, "s3cret").is_none());
    assert!(generate_token("x", "s", i64::MAX).is_none());
}

#[test]
fn decoded_claims_are_kept() {
    let c = claims_of(Some(("u".to_string(), 5))).unwrap();
    assert_eq!((c.username.as_str(), c.exp), ("u", 5));
    assert!(claims_of(None).is_none());
}
