use pansou::model::{Link, SearchResult};
use pansou::pages::{build_search_page, page_in_range, page_query, PageQuery};

fn link(kind: &str, url: &str) -> Link {
    Link { disk_type: kind.into(), url: url.into(), password: "p".into(), datetime: None, work_title: None }
}

fn result(title: &str, links: Vec<Link>) -> SearchResult {
    SearchResult {
        message_id: String::new(),
        unique_id: String::new(),
        channel: "tg:c".into(),
        channel_score: 0,
        datetime: 1_704_153_600_000,
        title: title.into(),
        content: String::new(),
        links,
        tags: vec![],
        images: vec![],
    }
}

fn q(pairs: &[(&str, &str)]) -> Vec<(String, String)> {
    pairs.iter().map(|(k, v)| (k.to_string(), v.to_string())).collect()
}

#[test]
fn page_groups_links_by_kind() {
    let results = vec![
        result("A", vec![link("quark", "u1"), link("pikpak", "u2"), link("baidu", "u3")]),
        result("B", vec![link("quark", "u1"), link("baidu", "u4")]),
    ];
    let page = build_search_page(&results, "__all__", 1);
    assert_eq!(page.total_links, 4);
    assert_eq!(page.total_filtered, 4);
    let kinds: Vec<(&str, usize)> = page.type_groups.iter().map(|g| (g.disk_type.as_str(), g.count)).collect();
    assert_eq!(kinds, vec![("baidu", 2), ("quark", 1), ("pikpak", 1)]);
    assert_eq!(page.type_groups[0].label, "百度网盘");
    assert_eq!(page.type_groups[2].label, "pikpak");
    let groups: Vec<(&str, usize)> = page.page_groups.iter().map(|g| (g.disk_type.as_str(), g.links.len())).collect();
    assert_eq!(groups, vec![("baidu", 2), ("quark", 1), ("pikpak", 1)]);
    assert_eq!(page.page_groups[0].links[0].title, "A");
    assert_eq!(page.page_groups[0].links[0].datetime, "2024-01-02");
    assert_eq!(page.page_groups[0].links[1].url, "u4");
    let only = build_search_page(&results, "baidu", 1);
    assert_eq!(only.total_filtered, 2);
    assert_eq!(only.page_groups.len(), 1);
    assert_eq!(only.page_groups[0].label, "百度网盘");
    let none = build_search_page(&results, "baidu", 2);
    assert!(none.page_groups.is_empty());
}

#[test]
fn pages_hold_twenty_links() {
    let links: Vec<Link> = (0..45).map(|i| link("quark", &format!("u{}", i))).collect();
    let results = vec![result("A", links)];
    let p1 = build_search_page(&results, "__all__", 0);
    assert_eq!(p1.page_groups[0].links.len(), 20);
    let p3 = build_search_page(&results, "quark", 3);
    assert_eq!(p3.page_groups[0].links.len(), 5);
    assert_eq!(p3.page_groups[0].links[0].url, "u40");
    assert!(page_in_range(3));
    assert!(!page_in_range(usize::MAX));
}

#[test]
fn page_query_reads_parameters() {
    let channels = vec!["c1".to_string()];
    assert!(matches!(page_query(&q(&[]), &channels), PageQuery::Redirect));
    assert!(matches!(page_query(&q(&[("kw", "  ")]), &channels), PageQuery::Redirect));
    match page_query(&q(&[("kw", "三体"), ("page", "3"), ("disk_type", "quark")]), &channels) {
        PageQuery::Show { request, disk_type_filter, page } => {
            assert_eq!(request.keyword, "三体");
            assert_eq!(request.source_type, "all");
            assert_eq!(request.channels, vec!["c1"]);
            assert_eq!(disk_type_filter, "quark");
            assert_eq!(page, 3);
        }
        other => panic!("unexpected {:?}", other),
    }
    match page_query(&q(&[("q", "三体")]), &channels) {
        PageQuery::Show { request, .. } => assert_eq!(request.keyword, "三体"),
        other => panic!("unexpected {:?}", other),
    }
    match page_query(&q(&[("q", " "), ("kw", "流浪地球")]), &channels) {
        PageQuery::Show { request, .. } => assert_eq!(request.keyword, "流浪地球"),
        other => panic!("unexpected {:?}", other),
    }
    match page_query(&q(&[("kw", "b"), ("q", "a")]), &channels) {
        PageQuery::Show { request, .. } => assert_eq!(request.keyword, "a"),
        other => panic!("unexpected {:?}", other),
    }
    assert!(matches!(page_query(&q(&[("q", ""), ("kw", " ")]), &channels), PageQuery::Redirect));
    match page_query(&q(&[("kw", "x"), ("page", "abc"), ("src", "tg")]), &channels) {
        PageQuery::Show { request, disk_type_filter, page } => {
            assert_eq!(request.source_type, "tg");
            assert_eq!(disk_type_filter, "__all__");
            assert_eq!(page, 1);
        }
        other => panic!("unexpected {:?}", other),
    }
}
