use pansou::resource_cache::{hot_keywords_from, newest_ids_from, related_from, short_id, short_id_of_hash, ResourceCache, ResourceInfo};

fn info(id: &str, title: &str, channel: &str) -> ResourceInfo {
    ResourceInfo {
        id: id.into(),
        title: title.into(),
        url: format!("https://pan.quark.cn/s/{}", id),
        disk_type: "quark".into(),
        channel: channel.into(),
        password: String::new(),
        created_at: 0,
    }
}

#[test]
fn short_ids_are_twelve_hex_digits_of_the_hash() {
    assert_eq!(short_id_of_hash(0x1234_5678_9abc_def0), "123456789abc");
    assert_eq!(short_id_of_hash(0x1000_0000_0000), "100000000000");
    let a = short_id("https://pan.baidu.com/s/abc");
    let b = short_id("https://pan.baidu.com/s/abc");
    assert_eq!(a, b);
    if let Some(id) = a {
        assert_eq!(id.len(), 12);
        assert!(id.chars().all(|c| c.is_ascii_hexdigit() && !c.is_ascii_uppercase()));
    }
}

#[test]
fn insert_then_get_gives_the_resource() {
    let mut cache = ResourceCache::new();
    let url = "https://pan.baidu.com/s/xyz";
    match cache.insert_at("标题", url, "baidu", "tg:c", "pw", 42) {
        Some(id) => {
            let got = cache.get(&id).expect("stored");
            assert_eq!(got.title, "标题");
            assert_eq!(got.url, url);
            assert_eq!(got.password, "pw");
            assert_eq!(got.created_at, 42);
            assert_eq!(got.id, id);
            let again = cache.insert_at("新标题", url, "baidu", "tg:c", "pw", 43).unwrap();
            assert_eq!(again, id);
            assert_eq!(cache.all_ids(), vec![id.clone()]);
            assert_eq!(cache.get(&id).unwrap().title, "新标题");
        }
        None => assert!(cache.all_ids().is_empty()),
    }
    assert!(cache.get("nope").is_none());
}

#[test]
fn restore_and_list() {
    let mut cache = ResourceCache::new();
    cache.restore(vec![info("a", "A", "c1"), info("b", "B", "c1"), info("a", "A2", "c2")]);
    let mut ids = cache.all_ids();
    ids.sort();
    assert_eq!(ids, vec!["a", "b"]);
    assert_eq!(cache.get("a").unwrap().title, "A2");
    assert_eq!(cache.all_resources().len(), 2);
    let mut kws = cache.hot_keywords(10);
    kws.sort();
    assert_eq!(kws, vec!["A2", "B"]);
    let rel = cache.related("c1", "a");
    assert_eq!(rel.len(), 1);
    assert_eq!(rel[0].id, "b");
}

#[test]
fn hot_keywords_take_fifteen_characters_once() {
    let infos = vec![
        info("1", "  Alpha  ", "c"),
        info("2", "", "c"),
        info("3", "Alpha", "c"),
        info("4", "一二三四五六七八九十一二三四五六七", "c"),
        info("5", "Beta", "c"),
    ];
    assert_eq!(hot_keywords_from(&infos, 5), vec!["Alpha", "一二三四五六七八九十一二三四五", "Beta"]);
    assert_eq!(hot_keywords_from(&infos, 2), vec!["Alpha", "一二三四五六七八九十一二三四五"]);
    assert_eq!(hot_keywords_from(&infos, 0), vec!["Alpha"]);
    assert!(hot_keywords_from(&vec![info("x", "   ", "c")], 3).is_empty());
}

#[test]
fn related_takes_five_of_the_channel() {
    let mut infos = Vec::new();
    for i in 0..8 {
        infos.push(info(&i.to_string(), "t", if i % 2 == 0 { "c1" } else { "c2" }));
    }
    for i in 8..14 {
        infos.push(info(&i.to_string(), "t", "c1"));
    }
    let r = related_from(&infos, "c1", "2");
    let ids: Vec<&str> = r.iter().map(|x| x.id.as_str()).collect();
    assert_eq!(ids, vec!["0", "4", "6", "8", "9"]);
}

#[test]
fn newest_resources_come_first() {
    let mut a = info("a", "A", "c");
    a.created_at = 10;
    let mut b = info("b", "B", "c");
    b.created_at = 30;
    let mut c = info("c", "C", "c");
    c.created_at = 20;
    let mut d = info("d", "D", "c");
    d.created_at = 30;
    let all = vec![a, b, c, d];
    assert_eq!(newest_ids_from(&all, 10), vec!["b", "d", "c", "a"]);
    assert_eq!(newest_ids_from(&all, 2), vec!["b", "d"]);
    assert!(newest_ids_from(&all, 0).is_empty());
    let mut cache = ResourceCache::new();
    cache.restore(all);
    let newest = cache.newest_ids(3);
    assert_eq!(newest.len(), 3);
    assert_eq!(newest[2], "c");
}
