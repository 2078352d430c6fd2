use pansou::model::{Link, SearchResult};
use pansou::service::refine::{group_by_kind, plugin_wanted, str_in};

fn link(kind: &str, url: &str) -> Link {
    Link { disk_type: kind.into(), url: url.into(), password: "pw".into(), datetime: None, work_title: None }
}

fn result(title: &str, channel: &str, links: Vec<Link>) -> SearchResult {
    SearchResult {
        message_id: String::new(),
        unique_id: title.into(),
        channel: channel.into(),
        channel_score: 0,
        datetime: 7,
        title: title.into(),
        content: String::new(),
        links,
        tags: vec![],
        images: vec![],
    }
}

#[test]
fn plugins_are_selected_by_name() {
    let none: Vec<String> = vec![];
    assert!(plugin_wanted("jikepan", &none));
    let some = vec!["pan666".to_string(), "jikepan".to_string()];
    assert!(plugin_wanted("jikepan", &some));
    assert!(!plugin_wanted("alupan", &some));
    assert!(str_in("pan666", &some));
    assert!(!str_in("", &some));
}

#[test]
fn links_are_grouped_by_kind_in_order_of_first_appearance() {
    let rs = vec![
        result("A", "tg:a", vec![link("baidu", "b1"), link("quark", "q1")]),
        result("B", "tg:b", vec![link("baidu", "b2")]),
        result("C", "p", vec![]),
    ];
    let groups = group_by_kind(&rs);
    assert_eq!(groups.len(), 2);
    assert_eq!(groups[0].disk_type, "baidu");
    assert_eq!(groups[0].links.iter().map(|l| l.url.as_str()).collect::<Vec<_>>(), vec!["b1", "b2"]);
    assert_eq!(groups[0].links[1].note, "B");
    assert_eq!(groups[0].links[1].source, "tg:b");
    assert_eq!(groups[0].links[1].datetime, 7);
    assert_eq!(groups[0].links[1].password, "pw");
    assert_eq!(groups[1].disk_type, "quark");
    assert!(group_by_kind(&vec![]).is_empty());
}
