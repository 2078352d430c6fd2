use pansou::seo::{crawler_gate, is_crawler, related_searches, robots_txt, sitemap_xml, CrawlerGate, CrawlerWindow};
use pansou::templates;

#[test]
fn crawlers_are_recognised_case_insensitively() {
    assert!(is_crawler("Mozilla/5.0 (compatible; Googlebot/2.1; +http://www.google.com/bot.html)"));
    assert!(templates::is_crawler("Mozilla/5.0 (compatible; Baiduspider/2.0)"));
    assert!(templates::is_crawler("TelegramBot (like TwitterBot)"));
    assert!(!is_crawler("Mozilla/5.0 (Windows NT 10.0) Chrome/120.0"));
    assert!(!templates::is_crawler(""));
}

#[test]
fn simple_related_searches_limit_characters() {
    assert_eq!(
        related_searches("流浪地球"),
        vec!["流浪地球 百度网盘", "流浪地球 阿里云盘", "流浪地球 夸克网盘", "流浪地球 提取码"]
    );
    assert!(related_searches("").is_empty());
    assert_eq!(related_searches("一二三四五六七").len(), 4);
    assert_eq!(
        related_searches("从零开始的异世界生活"),
        vec!["从零开始的异世界生活 百度网盘", "从零开始的异世界生活 阿里云盘", "从零开始的异世界生活 夸克网盘", "从零开始的异世界生活 提取码"]
    );
    assert_eq!(related_searches("一二三四五六七八九十一二三四五六七八九十").len(), 4);
    assert!(related_searches("一二三四五六七八九十一二三四五六七八九十一").is_empty());
}

#[test]
fn related_searches_add_or_remove_suffixes() {
    assert_eq!(
        templates::related_searches("三体"),
        vec!["三体 网盘", "三体 网盘下载", "三体 夸克网盘", "三体 阿里云盘", "三体 百度网盘"]
    );
    assert_eq!(
        templates::related_searches("三体 网盘"),
        vec!["三体", "三体 网盘 网盘下载", "三体 网盘 夸克网盘", "三体 网盘 阿里云盘", "三体 网盘 百度网盘"]
    );
    assert_eq!(templates::related_searches("一二三四五六七").len(), 5);
    assert!(templates::related_searches("").is_empty());
    assert!(templates::related_searches("一二三四五六七八九十一二三四五六七八九十一").is_empty());
}

#[test]
fn robots_document() {
    assert_eq!(
        robots_txt("https://a.com"),
        "User-agent: *\nAllow: /\nAllow: /search\nAllow: /resource/\nDisallow: /api/\nSitemap: https://a.com/sitemap.xml\n"
    );
    assert!(robots_txt("").ends_with("Sitemap: /sitemap.xml\n"));
}

#[test]
fn sitemap_lists_home_keywords_and_resources() {
    let xml = sitemap_xml("https://a.com", 1_714_521_600_000 + 3_600_000, &vec!["三体".to_string()], &vec!["abc123def456".to_string()]);
    assert_eq!(
        xml,
        "<?xml version=\"1.0\" encoding=\"UTF-8\"?><urlset xmlns=\"http://www.sitemaps.org/schemas/sitemap/0.9\">\
<url><loc>https://a.com/</loc><lastmod>2024-05-01</lastmod><priority>1.0</priority><changefreq>daily</changefreq></url>\
<url><loc>https://a.com/search?kw=%E4%B8%89%E4%BD%93</loc><lastmod>2024-05-01</lastmod><priority>0.8</priority><changefreq>daily</changefreq></url>\
<url><loc>https://a.com/resource/abc123def456</loc><priority>0.7</priority></url>\
</urlset>"
    );
    let defaults = sitemap_xml("https://a.com", 1_714_521_600_000, &vec![], &vec![]);
    assert_eq!(defaults.matches("<url>").count(), 11);
    assert!(defaults.contains("search?kw=%E5%8E%9F%E7%A5%9E"));
}

#[test]
fn crawlers_are_limited_to_twenty_searches_a_minute() {
    let mut w = CrawlerWindow::new();
    for i in 0..20 {
        assert_eq!(crawler_gate(&mut w, true, 1000 + i), CrawlerGate::Allow);
    }
    assert_eq!(w.count, 20);
    assert_eq!(crawler_gate(&mut w, true, 1030), CrawlerGate::Limit { retry_after_secs: 30 });
    assert_eq!(crawler_gate(&mut w, false, 1030), CrawlerGate::Allow);
    assert_eq!(w.count, 20);
    assert_eq!(crawler_gate(&mut w, true, 1059), CrawlerGate::Limit { retry_after_secs: 1 });
    assert_eq!(crawler_gate(&mut w, true, 1060), CrawlerGate::Allow);
    assert_eq!(w, CrawlerWindow { start: 1060, count: 1 });
}
