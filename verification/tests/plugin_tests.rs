use pansou::model::{Link, SearchResult};
use pansou::plugin::alupan::{classify_link, extract_password, AlupanArticle, AlupanPlugin};
use pansou::plugin::filter_results_by_keyword;
use pansou::plugin::jikepan::{convert_service, JikepanItem, JikepanLink, JikepanPlugin};
use pansou::plugin::pan666::{
    clean_html, extract_links_from_text, extract_password_from_url, extract_url, random_ip, random_ua,
    reads_safely, Pan666Discussion, Pan666Plugin, Pan666Post,
};
use pansou::plugin::panshushu::{PanshushuItem, PanshushuPlugin};
use pansou::plugin::sosoyunpan::{SosoyunpanItem, SosoyunpanPlugin};
use pansou::plugin::yunsou::{convert_disk_type, extract_pwd_from_url, YunsouItem, YunsouPlugin};

const NOW: i64 = 1_700_000_000_000;

fn result(title: &str, content: &str) -> SearchResult {
    SearchResult {
        message_id: String::new(),
        unique_id: String::new(),
        channel: String::new(),
        channel_score: 0,
        datetime: NOW,
        title: title.into(),
        content: content.into(),
        links: vec![],
        tags: vec![],
        images: vec![],
    }
}

#[test]
fn keyword_filter_needs_every_word_in_title_or_content() {
    let mut v = vec![
        result("Three Body 三体", ""),
        result("三体", "season two"),
        result("other", "three"),
        result("THREE", "body"),
    ];
    filter_results_by_keyword(&mut v, "  three   BODY ");
    let titles: Vec<&str> = v.iter().map(|r| r.title.as_str()).collect();
    assert_eq!(titles, vec!["Three Body 三体", "THREE"]);
    let mut w = vec![result("a", "")];
    filter_results_by_keyword(&mut w, "");
    assert_eq!(w.len(), 1);
}

#[test]
fn plugin_names_and_priorities() {
    assert_eq!(JikepanPlugin.name(), "jikepan");
    assert_eq!(Pan666Plugin.name(), "pan666");
    assert_eq!(AlupanPlugin.name(), "alupan");
    assert_eq!(YunsouPlugin.name(), "yunsou");
    assert_eq!(SosoyunpanPlugin.name(), "sosoyunpan");
    assert_eq!(PanshushuPlugin.name(), "panshushu");
    assert_eq!(AlupanPlugin.priority(), 2);
    assert_eq!(YunsouPlugin.priority(), 2);
    assert_eq!(JikepanPlugin.priority(), 3);
    assert_eq!(PanshushuPlugin.channel_score(), 40);
    assert_eq!(SosoyunpanPlugin.channel_score(), 0);
}

#[test]
fn jikepan_services_and_results() {
    assert_eq!(convert_service("BAIDU"), "baidu");
    assert_eq!(convert_service("189cloud"), "tianyi");
    assert_eq!(convert_service("caiyun"), "mobile");
    assert_eq!(convert_service("unknown"), "");
    assert_eq!(convert_service("foo"), "others");
    let items = vec![
        JikepanItem { name: "A".into(), links: vec![] },
        JikepanItem {
            name: "B".into(),
            links: vec![JikepanLink { service: "unknown".into(), link: "x".into(), pwd: String::new() }],
        },
        JikepanItem {
            name: "C".into(),
            links: vec![
                JikepanLink { service: "Quark".into(), link: "https://pan.quark.cn/s/1".into(), pwd: "p".into() },
                JikepanLink { service: "unknown".into(), link: "y".into(), pwd: String::new() },
            ],
        },
    ];
    let r = JikepanPlugin.results_from(&items, NOW);
    assert_eq!(r.len(), 1);
    assert_eq!(r[0].message_id, "jikepan_2");
    assert_eq!(r[0].unique_id, "jikepan_2");
    assert_eq!(r[0].title, "C");
    assert_eq!(r[0].datetime, NOW);
    assert_eq!(r[0].links.len(), 1);
    assert_eq!(r[0].links[0].disk_type, "quark");
    assert_eq!(r[0].links[0].password, "p");
}

#[test]
fn panshushu_results_are_dated_a_second_apart() {
    let items = vec![
        PanshushuItem { id: 7, pwd: "x".into(), title: "T".into(), url: "https://pan.baidu.com/s/1".into() },
        PanshushuItem { id: -3, pwd: String::new(), title: "U".into(), url: "https://example.com".into() },
    ];
    let r = PanshushuPlugin.results_from(200, Some(&items), 1_000_000);
    assert_eq!(r.len(), 2);
    assert_eq!(r[0].message_id, "panshushu_7");
    assert_eq!(r[1].unique_id, "panshushu_-3");
    assert_eq!(r[0].datetime, 1_000_000);
    assert_eq!(r[1].datetime, 999_000);
    assert_eq!(r[0].channel, "panshushu");
    assert_eq!(r[0].channel_score, 40);
    assert_eq!(r[0].links[0].disk_type, "baidu");
    assert_eq!(r[1].links[0].disk_type, "others");
    assert_eq!(r[0].links[0].work_title, Some("T".to_string()));
    assert_eq!(r[1].links[0].datetime, Some(999_000));
    assert!(PanshushuPlugin.results_from(500, Some(&items), 1_000_000).is_empty());
    assert!(PanshushuPlugin.results_from(200, None, 1_000_000).is_empty());
    assert_eq!(
        PanshushuPlugin.search_url("流浪 地球"),
        "https://www.panshushu.com/api/search?keyword=%E6%B5%81%E6%B5%AA+%E5%9C%B0%E7%90%83&page=1&page_size=30&s=a1"
    );
}

#[test]
fn sosoyunpan_results() {
    let items = vec![
        SosoyunpanItem {
            file_md5: None,
            file_title: Some("<em>流浪</em>地球".into()),
            file_link: Some("https://pan.quark.cn/s/abc".into()),
            share_date: Some("2024-01-02".into()),
        },
        SosoyunpanItem {
            file_md5: Some("m5".into()),
            file_title: Some("流浪者".into()),
            file_link: Some("https://pan.baidu.com/s/x".into()),
            share_date: Some("yesterday".into()),
        },
        SosoyunpanItem { file_md5: None, file_title: Some(String::new()), file_link: Some("u".into()), share_date: None },
        SosoyunpanItem { file_md5: None, file_title: Some("流浪".into()), file_link: None, share_date: None },
        SosoyunpanItem { file_md5: None, file_title: Some("无关".into()), file_link: Some("u".into()), share_date: None },
    ];
    let r = SosoyunpanPlugin.results_from(&items, "流浪", NOW);
    assert_eq!(r.len(), 2);
    assert_eq!(r[0].title, "流浪地球");
    assert_eq!(r[0].unique_id, "sosoyunpan-https://pan.quark.cn/s/abc");
    assert_eq!(r[0].datetime, 1_704_153_600_000);
    assert_eq!(r[0].channel, "sosoyunpan");
    assert_eq!(r[0].links[0].disk_type, "quark");
    assert_eq!(r[1].message_id, "sosoyunpan-m5");
    assert_eq!(r[1].datetime, NOW);
}

#[test]
fn yunsou_page_and_items() {
    assert_eq!(convert_disk_type(0), "quark");
    assert_eq!(convert_disk_type(4), "xunlei");
    assert_eq!(convert_disk_type(9), "others");
    assert_eq!(extract_pwd_from_url("https://pan.baidu.com/s/1?pwd=ab12"), Some("ab12".to_string()));
    assert_eq!(extract_pwd_from_url("https://pan.baidu.com/s/1"), None);
    let body = "<script>var jsonData = '[{\"url\":\"https:\\/\\/x\"}]';</script>";
    assert_eq!(YunsouPlugin.json_data(body), Some("[{\"url\":\"https://x\"}]".to_string()));
    assert_eq!(YunsouPlugin.json_data("nothing"), None);
    assert_eq!(YunsouPlugin.search_url("a b"), "https://wpys.cc/s/a+b.html");
    let items = vec![
        YunsouItem {
            id: 5,
            title: "三体 全集".into(),
            is_type: 2,
            code: None,
            url: "https://pan.baidu.com/s/1?pwd=9z9z".into(),
            times: "2024-01-02".into(),
            category_name: "电视剧".into(),
        },
        YunsouItem {
            id: 6,
            title: "三体".into(),
            is_type: 0,
            code: Some("ok12".into()),
            url: "https://pan.quark.cn/s/2".into(),
            times: "bad".into(),
            category_name: String::new(),
        },
        YunsouItem {
            id: 7,
            title: "三体".into(),
            is_type: 0,
            code: None,
            url: String::new(),
            times: String::new(),
            category_name: String::new(),
        },
    ];
    let r = YunsouPlugin.results_from(&items, "三体", NOW);
    assert_eq!(r.len(), 2);
    assert_eq!(r[0].message_id, "yunsou-5");
    assert_eq!(r[0].content, "【电视剧】");
    assert_eq!(r[0].tags, vec!["电视剧".to_string()]);
    assert_eq!(r[0].datetime, 1_704_153_600_000);
    assert_eq!(r[0].links[0].disk_type, "baidu");
    assert_eq!(r[0].links[0].password, "9z9z");
    assert_eq!(r[1].links[0].password, "ok12");
    assert_eq!(r[1].content, "");
    assert!(r[1].tags.is_empty());
    assert_eq!(r[1].datetime, NOW);
}

#[test]
fn pan666_html_is_cleaned() {
    let html = "<p>Hello<br>World &amp; more</p><br/>  <b>x</b> &lt;tag&gt; ";
    assert_eq!(clean_html(html), "Hello\nWorld & more\nx <tag>");
    assert_eq!(clean_html(""), "");
}

#[test]
fn pan666_urls_and_passwords() {
    assert_eq!(extract_url("see https://a.com/x) more"), Some("https://a.com/x".to_string()));
    assert_eq!(extract_url("https://a.com http://b.cn/y, ok"), Some("http://b.cn/y".to_string()));
    assert_eq!(extract_url("no link"), None);
    assert_eq!(extract_password_from_url("https://x/s/1?code=abc&y=1"), Some("abc".to_string()));
    assert_eq!(extract_password_from_url("https://x?pwd=&code=9"), Some("9".to_string()));
    assert_eq!(extract_password_from_url("https://x?pwd=ab#frag"), Some("ab".to_string()));
    assert_eq!(extract_password_from_url("https://x/s/1"), None);
}

#[test]
fn pan666_links_take_the_nearest_password() {
    let text = "资源分享\n链接: https://pan.baidu.com/s/1abc?pwd=xyz9\n夸克 https://cloud.189.cn/t/ABCD\n提取码: 8k2d\n\n\n\n\nhttps://www.aliyundrive.com/s/far";
    assert!(reads_safely(text));
    let links = extract_links_from_text(text);
    assert_eq!(links.len(), 3);
    assert_eq!(links[0].disk_type, "baidu");
    assert_eq!(links[0].password, "xyz9");
    assert_eq!(links[1].disk_type, "tianyi");
    assert_eq!(links[1].url, "https://cloud.189.cn/t/ABCD");
    assert_eq!(links[1].password, "8k2d");
    assert_eq!(links[2].disk_type, "aliyun");
    assert_eq!(links[2].password, "");
    assert!(!reads_safely("密码：abcd"));
    assert!(reads_safely("密码: abcd：x"));
}

#[test]
fn pan666_pages_give_results() {
    let discussions = vec![
        Pan666Discussion {
            id: "11".into(),
            title: "三体 合集".into(),
            created_at: "2024-01-02T00:00:00Z".into(),
            post_id: "p1".into(),
        },
        Pan666Discussion { id: "12".into(), title: "三体".into(), created_at: "bad".into(), post_id: "missing".into() },
    ];
    let posts = vec![
        Pan666Post { id: "p1".into(), content_html: "<p>old</p>".into() },
        Pan666Post { id: "p1".into(), content_html: "<p>三体 https://pan.baidu.com/s/1</p><p>提取码: ab12</p>".into() },
    ];
    let pages = vec![(discussions, posts)];
    let r = Pan666Plugin.results_from_pages(&pages, "三体", NOW);
    assert_eq!(r.len(), 1);
    assert_eq!(r[0].unique_id, "pan666-11");
    assert_eq!(r[0].datetime, 1_704_153_600_000);
    assert_eq!(r[0].content, "三体 https://pan.baidu.com/s/1提取码: ab12");
    assert_eq!(r[0].links.len(), 1);
    let bad = vec![(
        vec![Pan666Discussion { id: "1".into(), title: "三体".into(), created_at: String::new(), post_id: "q".into() }],
        vec![Pan666Post { id: "q".into(), content_html: "https://pan.baidu.com/s/1<br>提取码：ab".into() }],
    )];
    assert!(Pan666Plugin.results_from_pages(&bad, "三体", NOW).is_empty());
    assert!(Pan666Plugin.page_url("k", 1).contains("page[offset]=50&page[limit]=50"));
}

#[test]
fn pan666_random_headers_are_well_formed() {
    for _ in 0..20 {
        let ua = random_ua();
        assert!(ua.starts_with("Mozilla/5.0"));
        let ip = random_ip();
        let parts: Vec<u32> = ip.split('.').map(|p| p.parse().unwrap()).collect();
        assert_eq!(parts.len(), 4);
        assert!(parts[0] >= 1 && parts[0] < 224);
        assert!(parts[1] < 256 && parts[2] < 256);
        assert!(parts[3] >= 1 && parts[3] < 255);
    }
}

#[test]
fn alupan_articles_links_and_results() {
    let page = "<article class=\"excerpt\"><header><h2><a href=\"https://www.aliupan.com/?p=123\">  Title A </a></h2></header>\
        <p class=\"note\"> Sum </p></article>\
        <article class=\"excerpt\"><header><h2><a href=\"https://x/nop\">B</a></h2></header></article>";
    let arts = AlupanPlugin.articles_from_page(page);
    assert_eq!(arts.len(), 1);
    assert_eq!(arts[0].title, "Title A");
    assert_eq!(arts[0].article_id, "123");
    assert_eq!(arts[0].summary, "Sum");
    assert_eq!(arts[0].detail_url, "https://www.aliupan.com/?p=123");
    let detail = "<div class=\"article-content\"><a href=\" https://pan.quark.cn/s/AbC12 \">提取码：xy12</a>\
        <a href=\"https://pan.quark.cn/s/AbC12\">dup</a><a href=\"https://example.com\">x</a></div>";
    let links = AlupanPlugin.detail_links(detail);
    assert_eq!(links.len(), 1);
    assert_eq!(links[0].url, "https://pan.quark.cn/s/AbC12");
    assert_eq!(links[0].disk_type, "quark");
    assert_eq!(links[0].password, "xy12");
    assert_eq!(classify_link("go https://www.aliyundrive.com/s/Q1 now"), ("aliyun".to_string(), "https://www.aliyundrive.com/s/Q1".to_string()));
    assert_eq!(classify_link("https://example.com"), (String::new(), String::new()));
    assert_eq!(extract_password("密码 9f9f"), "9f9f");
    let arts2 = vec![
        AlupanArticle { title: "A 三体".into(), detail_url: "u1".into(), article_id: "1".into(), summary: "s".into() },
        AlupanArticle { title: "B 三体".into(), detail_url: "u2".into(), article_id: "2".into(), summary: "s".into() },
    ];
    let link = Link { disk_type: "quark".into(), url: "https://pan.quark.cn/s/1".into(), password: String::new(), datetime: None, work_title: None };
    let r = AlupanPlugin.results_from(&arts2, &vec![vec![], vec![link]], "三体", NOW);
    assert_eq!(r.len(), 1);
    assert_eq!(r[0].message_id, "alupan-2");
    assert_eq!(r[0].content, "s");
    assert_eq!(AlupanPlugin.search_url("a b"), "https://www.aliupan.com/?s=a+b");
}

#[test]
fn yunsou_drops_control_characters() {
    let body = "var jsonData = '[{\"t\":\"a\u{1}b\u{7f}c\"}]';";
    assert_eq!(YunsouPlugin.json_data(body), Some("[{\"t\":\"abc\"}]".to_string()));
}
