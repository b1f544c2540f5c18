use sanae::sources::news::parse;

#[test]
fn parses_items() {
    let rss = r#"<rss><channel><title>Arch Linux: Recent news updates</title>
<item><title>linux-firmware &gt;= 20250613 upgrade requires manual intervention</title><link>https://archlinux.org/news/x/</link><pubDate>Sat, 21 Jun 2025 10:00:00 +0000</pubDate></item>
<item><title>Plasma 6.4</title><link>https://archlinux.org/news/y/</link><pubDate>Mon, 23 Jun 2025 10:00:00 +0000</pubDate></item>
</channel></rss>"#;
    let items = parse(rss);
    assert_eq!(items.len(), 2);
    assert!(items[0].needs_attention());
    assert!(!items[1].needs_attention());
    assert_eq!(items[0].date, "Sat, 21 Jun 2025");
    assert!(items[0].title.contains(">="));
}

#[test]
fn attention_words_ignore_case() {
    let rss = "<rss><item><title>ACTION REQUIRED: gnupg</title><link> https://a/ </link></item><item><title>Nothing</title></item></rss>";
    let items = parse(rss);
    assert_eq!(items.len(), 2);
    assert!(items[0].needs_attention());
    assert_eq!(items[0].link, "https://a/");
    assert_eq!(items[1].date, "");
}
