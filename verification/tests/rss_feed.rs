use nadeshiko::rss_feed::{RssFeed, RssFeedEntry};

#[test]
fn rss_feed_one() {
    // setup
    
    let content = br#"
                <rss version="2.0">
                    <channel>
                        <title>Example RSS</title>
                        <description>Example RSS Feed</description>
                        <link>http://localhost/</link>
                        <atom:link href="http://localhost/rss" rel="self" type="application/rss+xml"/>
                        <item>
                            <title>[Example] Placeholder - 17 (720p) [83538700].mkv</title>
                            <link>http://localhost/download/123456.torrent</link>
                            <guid isPermaLink="true">http://localhost/view/123456</guid>
                            <pubDate>Thu, 01 Jan 1970 00:00:00 -0000</pubDate>
                        </item>
                    </channel>
                </rss>
            "#;
    
    // operation
    
    let mut output = RssFeed::new(content);
    
    // control
    
    assert_eq!(output.next(), Some(RssFeedEntry {
        title: b"[Example] Placeholder - 17 (720p) [83538700].mkv",
        link: b"http://localhost/download/123456.torrent",
    }));
    
    assert_eq!(output.next(), None);
}

#[test]
fn rss_feed_three() {
    // setup
    
    let content = br#"
                <rss version="2.0">
                    <channel>
                        <title>Example RSS</title>
                        <description>Example RSS Feed</description>
                        <link>http://localhost/</link>
                        <atom:link href="http://localhost/rss" rel="self" type="application/rss+xml"/>
                        <item>
                            <title>[Example] Placeholder - 17 (720p) [83538700].mkv</title>
                            <link>http://localhost/download/123456.torrent</link>
                            <guid isPermaLink="true">http://localhost/view/123456</guid>
                            <pubDate>Thu, 01 Jan 1970 00:00:00 -0000</pubDate>
                        </item>
                        <item>
                            <title>[Example] Placeholder - 18 (720p) [83538700].mkv</title>
                            <link>http://localhost/download/654321.torrent</link>
                            <guid isPermaLink="true">http://localhost/view/654321</guid>
                            <pubDate>Thu, 01 Jan 1970 00:00:00 -0000</pubDate>
                        </item>
                        <item>
                            <title>[Example] Placeholder - 19 (720p) [83538700].mkv</title>
                            <link>http://localhost/download/123123.torrent</link>
                            <guid isPermaLink="true">http://localhost/view/123123</guid>
                            <pubDate>Thu, 01 Jan 1970 00:00:00 -0000</pubDate>
                        </item>
                    </channel>
                </rss>
            "#;
    
    // operation
    
    let mut output = RssFeed::new(content);
    
    // control
    
    assert_eq!(output.next(), Some(RssFeedEntry {
        title: b"[Example] Placeholder - 17 (720p) [83538700].mkv",
        link: b"http://localhost/download/123456.torrent",
    }));
    
    assert_eq!(output.next(), Some(RssFeedEntry {
        title: b"[Example] Placeholder - 18 (720p) [83538700].mkv",
        link: b"http://localhost/download/654321.torrent",
    }));
    
    assert_eq!(output.next(), Some(RssFeedEntry {
        title: b"[Example] Placeholder - 19 (720p) [83538700].mkv",
        link: b"http://localhost/download/123123.torrent",
    }));
    
    assert_eq!(output.next(), None);
}

#[test]
fn rss_feed_empty_link() {
    // setup
    
    let content = br#"
                <rss version="2.0">
                    <channel>
                        <title>Example RSS</title>
                        <description>Example RSS Feed</description>
                        <link>http://localhost/</link>
                        <atom:link href="http://localhost/rss" rel="self" type="application/rss+xml"/>
                        <item>
                            <title>[Example] Placeholder - 17 (720p) [83538700].mkv</title>
                            <link></link>
                            <guid isPermaLink="true">http://localhost/view/123456</guid>
                            <pubDate>Thu, 01 Jan 1970 00:00:00 -0000</pubDate>
                        </item>
                    </channel>
                </rss>
            "#;
    
    // operation
    
    let mut output = RssFeed::new(content);
    
    // control
    
    assert_eq!(output.next(), Some(RssFeedEntry {
        title: b"[Example] Placeholder - 17 (720p) [83538700].mkv",
        link: b"",
    }));
    
    assert_eq!(output.next(), None);
}

#[test]
fn rss_feed_nested_items() {
    // setup
    
    let content = br#"
                <rss version="2.0">
                    <channel>
                        <title>Example RSS</title>
                        <description>Example RSS Feed</description>
                        <link>http://localhost/</link>
                        <atom:link href="http://localhost/rss" rel="self" type="application/rss+xml"/>
                        <item>
                            <title>[Example] Placeholder - 16 (720p) [83538700].mkv</title>
                            <item>
                                <link>http://localhost/download/321321.torrent</link>
                            </item>
                            <guid isPermaLink="true">http://localhost/view/321321</guid>
                            <pubDate>Thu, 01 Jan 1970 00:00:00 -0000</pubDate>
                        </item>
                        <item>
                            <item>
                                <link>http://localhost/download/321321.torrent</link>
                            </item>
                            <title>[Example] Placeholder - 17 (720p) [83538700].mkv</title>
                            <guid isPermaLink="true">http://localhost/view/321321</guid>
                            <pubDate>Thu, 01 Jan 1970 00:00:00 -0000</pubDate>
                        </item>
                    </channel>
                </rss>
            "#;
    
    // operation
    
    let mut output = RssFeed::new(content);
    
    // control
    
    assert_eq!(output.next(), Some(RssFeedEntry {
        title: b"[Example] Placeholder - 16 (720p) [83538700].mkv",
        link: b"http://localhost/download/321321.torrent",
    }));
    
    assert_eq!(output.next(), None);
}

#[test]
fn rss_feed_multiple_link() {
    // setup
    
    let content = br#"
                <rss version="2.0">
                    <channel>
                        <title>Example RSS</title>
                        <description>Example RSS Feed</description>
                        <link>http://localhost/</link>
                        <atom:link href="http://localhost/rss" rel="self" type="application/rss+xml"/>
                        <item>
                            <title>[Example] Placeholder - 17 (720p) [83538700].mkv</title>
                            <link>http://localhost/download/123456.torrent</link>
                            <link>http://localhost/download/1234567890.torrent</link>
                            <guid isPermaLink="true">http://localhost/view/123456</guid>
                            <pubDate>Thu, 01 Jan 1970 00:00:00 -0000</pubDate>
                        </item>
                    </channel>
                </rss>
            "#;
    
    // operation
    
    let mut output = RssFeed::new(content);
    
    // control
    
    assert_eq!(output.next(), Some(RssFeedEntry {
        title: b"[Example] Placeholder - 17 (720p) [83538700].mkv",
        link: b"http://localhost/download/123456.torrent",
    }));
    
    assert_eq!(output.next(), None);
}

#[test]
fn rss_feed_no_items() {
    // setup
    
    let content = br#"
                <rss version="2.0">
                    <channel>
                        <title>Example RSS</title>
                        <description>Example RSS Feed</description>
                        <link>http://localhost/</link>
                        <atom:link href="http://localhost/rss" rel="self" type="application/rss+xml"/>
                    </channel>
                </rss>
            "#;
    
    // operation
    
    let mut output = RssFeed::new(content);
    
    // control
    
    assert_eq!(output.next(), None);
}

#[test]
fn rss_feed_barebones() {
    // setup
    
    let content = br#"
                <item>
                    <title>[Example] Placeholder - 17 (720p) [83538700].mkv</title>
                    <link>http://localhost/download/123456.torrent</link>
                    <guid isPermaLink="true">http://localhost/view/123456</guid>
                    <pubDate>Thu, 01 Jan 1970 00:00:00 -0000</pubDate>
                </item>
                <item>
                    <title>[Example] Placeholder - 18 (720p) [83538700].mkv</title>
                    <link>http://localhost/download/654321.torrent</link>
                    <guid isPermaLink="true">http://localhost/view/654321</guid>
                    <pubDate>Thu, 01 Jan 1970 00:00:00 -0000</pubDate>
                </item>
                <item>
                    <title>[Example] Placeholder - 19 (720p) [83538700].mkv</title>
                    <link>http://localhost/download/123123.torrent</link>
                    <guid isPermaLink="true">http://localhost/view/123123</guid>
                    <pubDate>Thu, 01 Jan 1970 00:00:00 -0000</pubDate>
                </item>
            "#;
    
    // operation
    
    let mut output = RssFeed::new(content);
    
    // control
    
    assert_eq!(output.next(), Some(RssFeedEntry {
        title: b"[Example] Placeholder - 17 (720p) [83538700].mkv",
        link: b"http://localhost/download/123456.torrent",
    }));
    
    assert_eq!(output.next(), Some(RssFeedEntry {
        title: b"[Example] Placeholder - 18 (720p) [83538700].mkv",
        link: b"http://localhost/download/654321.torrent",
    }));
    
    assert_eq!(output.next(), Some(RssFeedEntry {
        title: b"[Example] Placeholder - 19 (720p) [83538700].mkv",
        link: b"http://localhost/download/123123.torrent",
    }));
    
    assert_eq!(output.next(), None);
}

#[test]
fn rss_feed_unclosed_item() {
    // setup
    
    let content = br#"
                <rss version="2.0">
                    <channel>
                        <title>Example RSS</title>
                        <description>Example RSS Feed</description>
                        <link>http://localhost/</link>
                        <atom:link href="http://localhost/rss" rel="self" type="application/rss+xml"/>
                        <item>
                        <title>[Example] Placeholder - 17 (720p) [83538700].mkv</title>
                        <link>http://localhost/download/123456.torrent</link>
                        <guid isPermaLink="true">http://localhost/view/123456</guid>
                        <pubDate>Thu, 01 Jan 1970 00:00:00 -0000</pubDate>
                    </channel>
                </rss>
            "#;
    
    // operation
    
    let mut output = RssFeed::new(content);
    
    // control
    
    assert_eq!(output.next(), None);
}

#[test]
fn rss_feed_missing_link() {
    // setup
    
    let content = br#"
                <rss version="2.0">
                    <channel>
                        <title>Example RSS</title>
                        <description>Example RSS Feed</description>
                        <link>http://localhost/</link>
                        <atom:link href="http://localhost/rss" rel="self" type="application/rss+xml"/>
                        <item>
                            <title>[Example] Placeholder - 17 (720p) [83538700].mkv</title>
                            <link>http://localhost/download/123456.torrent</link>
                            <guid isPermaLink="true">http://localhost/view/123456</guid>
                            <pubDate>Thu, 01 Jan 1970 00:00:00 -0000</pubDate>
                        </item>
                        <item>
                            <title>[Example] Placeholder - 18 (720p) [83538700].mkv</title>
                            <link></link>
                            <guid isPermaLink="true">http://localhost/view/654321</guid>
                            <pubDate>Thu, 01 Jan 1970 00:00:00 -0000</pubDate>
                        </item>
                        <item>
                            <title>[Example] Placeholder - 19 (720p) [83538700].mkv</title>
                            <guid isPermaLink="true">http://localhost/view/654321</guid>
                            <pubDate>Thu, 01 Jan 1970 00:00:00 -0000</pubDate>
                        </item>
                        <item>
                            <title>[Example] Placeholder - 20 (720p) [83538700].mkv</title>
                            <link>http://localhost/download/123123.torrent</link>
                            <guid isPermaLink="true">http://localhost/view/123123</guid>
                            <pubDate>Thu, 01 Jan 1970 00:00:00 -0000</pubDate>
                        </item>
                    </channel>
                </rss>
            "#;
    
    // operation
    
    let mut output = RssFeed::new(content);
    
    // control
    
    assert_eq!(output.next(), Some(RssFeedEntry {
        title: b"[Example] Placeholder - 17 (720p) [83538700].mkv",
        link: b"http://localhost/download/123456.torrent",
    }));
    
    assert_eq!(output.next(), Some(RssFeedEntry {
        title: b"[Example] Placeholder - 18 (720p) [83538700].mkv",
        link: b"",
    }));
    
    assert_eq!(output.next(), Some(RssFeedEntry {
        title: b"[Example] Placeholder - 20 (720p) [83538700].mkv",
        link: b"http://localhost/download/123123.torrent",
    }));
    
    assert_eq!(output.next(), None);
}

#[test]
fn releases_and_rss_feed_read_the_same_releases() {
    let content = b"<item><title>a 1</title><link>x</link></item><item><title>no link</title></item><item><link>y</link><title>b 2</title></item>".to_vec();
    let releases = nadeshiko::releases::Releases::from_bytes(content.clone());
    let mut feed = nadeshiko::rss_feed::RssFeed::new(&content);
    for _ in 0..2 {
        let mut iter = releases.iter();
        let mut read = Vec::new();
        while let Some(entry) = iter.next() {
            read.push((entry.title.to_vec(), entry.link.to_vec()));
        }
        assert_eq!(read, vec![(b"a 1".to_vec(), b"x".to_vec()), (b"b 2".to_vec(), b"y".to_vec())]);
    }
    let mut from_feed = Vec::new();
    while let Some(entry) = feed.next() {
        from_feed.push((entry.title.to_vec(), entry.link.to_vec()));
    }
    assert_eq!(from_feed, vec![(b"a 1".to_vec(), b"x".to_vec()), (b"b 2".to_vec(), b"y".to_vec())]);
}
