use nadeshiko::feed::Feed;

#[test]
fn feed_one() {
    // setup
    
    let content = br#"
                <rss version="2.0">
                    <channel>
                        <title>Example RSS</title>
                        <description>Example RSS Feed</description>
                        <link>http://localhost/</link>
                        <atom:link href="http://localhost/rss" rel="self" type="application/rss+xml"/>
                        <item>
                            <title>[Example] Placeholder - 17 (720p) [83538700].mkv</title>
                            <link>http://localhost/download/123456.torrent</link>
                            <guid isPermaLink="true">http://localhost/view/123456</guid>
                            <pubDate>Thu, 01 Jan 1970 00:00:00 -0000</pubDate>
                        </item>
                    </channel>
                </rss>
            "#;
    
    let entries = Feed::from_bytes(content.to_vec());
    
    // operation
    
    let mut output = entries.iter();
    
    // control
    
    let item = output.next().unwrap();
    
    assert_eq!(item.title(), Some(b"[Example] Placeholder - 17 (720p) [83538700].mkv".as_slice()));
    assert_eq!(item.link(), Some(b"http://localhost/download/123456.torrent".as_slice()));
    
    assert!(output.next().is_none());
}

#[test]
fn feed_three() {
    // setup
    
    let content = br#"
                <rss version="2.0">
                    <channel>
                        <title>Example RSS</title>
                        <description>Example RSS Feed</description>
                        <link>http://localhost/</link>
                        <atom:link href="http://localhost/rss" rel="self" type="application/rss+xml"/>
                        <item>
                            <title>[Example] Placeholder - 17 (720p) [83538700].mkv</title>
                            <link>http://localhost/download/123456.torrent</link>
                            <guid isPermaLink="true">http://localhost/view/123456</guid>
                            <pubDate>Thu, 01 Jan 1970 00:00:00 -0000</pubDate>
                        </item>
                        <item>
                            <title>[Example] Placeholder - 18 (720p) [83538700].mkv</title>
                            <link>http://localhost/download/654321.torrent</link>
                            <guid isPermaLink="true">http://localhost/view/654321</guid>
                            <pubDate>Thu, 01 Jan 1970 00:00:00 -0000</pubDate>
                        </item>
                        <item>
                            <title>[Example] Placeholder - 19 (720p) [83538700].mkv</title>
                            <link>http://localhost/download/123123.torrent</link>
                            <guid isPermaLink="true">http://localhost/view/123123</guid>
                            <pubDate>Thu, 01 Jan 1970 00:00:00 -0000</pubDate>
                        </item>
                    </channel>
                </rss>
            "#;
    
    let entries = Feed::from_bytes(content.to_vec());
    
    // operation
    
    let mut output = entries.iter();
    
    // control
    
    let item = output.next().unwrap();
    
    assert_eq!(item.title(), Some(b"[Example] Placeholder - 17 (720p) [83538700].mkv".as_slice()));
    assert_eq!(item.link(), Some(b"http://localhost/download/123456.torrent".as_slice()));
    
    let item = output.next().unwrap();
    
    assert_eq!(item.title(), Some(b"[Example] Placeholder - 18 (720p) [83538700].mkv".as_slice()));
    assert_eq!(item.link(), Some(b"http://localhost/download/654321.torrent".as_slice()));
    
    let item = output.next().unwrap();
    
    assert_eq!(item.title(), Some(b"[Example] Placeholder - 19 (720p) [83538700].mkv".as_slice()));
    assert_eq!(item.link(), Some(b"http://localhost/download/123123.torrent".as_slice()));
    
    assert!(output.next().is_none());
}

#[test]
fn feed_empty_link() {
    // setup
    
    let content = br#"
                <rss version="2.0">
                    <channel>
                        <title>Example RSS</title>
                        <description>Example RSS Feed</description>
                        <link>http://localhost/</link>
                        <atom:link href="http://localhost/rss" rel="self" type="application/rss+xml"/>
                        <item>
                            <title>[Example] Placeholder - 17 (720p) [83538700].mkv</title>
                            <link></link>
                            <guid isPermaLink="true">http://localhost/view/123456</guid>
                            <pubDate>Thu, 01 Jan 1970 00:00:00 -0000</pubDate>
                        </item>
                    </channel>
                </rss>
            "#;
    
    let entries = Feed::from_bytes(content.to_vec());
    
    // operation
    
    let mut output = entries.iter();
    
    // control
    
    let item = output.next().unwrap();
    
    assert_eq!(item.title(), Some(b"[Example] Placeholder - 17 (720p) [83538700].mkv".as_slice()));
    assert_eq!(item.link(), Some(b"".as_slice()));
    
    assert!(output.next().is_none());
}

#[test]
fn feed_nested_items() {
    // setup
    
    let content = br#"
                <rss version="2.0">
                    <channel>
                        <title>Example RSS</title>
                        <description>Example RSS Feed</description>
                        <link>http://localhost/</link>
                        <atom:link href="http://localhost/rss" rel="self" type="application/rss+xml"/>
                        <item>
                            <title>[Example] Placeholder - 16 (720p) [83538700].mkv</title>
                            <item>
                                <link>http://localhost/download/321321.torrent</link>
                            </item>
                            <guid isPermaLink="true">http://localhost/view/321321</guid>
                            <pubDate>Thu, 01 Jan 1970 00:00:00 -0000</pubDate>
                        </item>
                        <item>
                            <item>
                                <link>http://localhost/download/321321.torrent</link>
                            </item>
                            <title>[Example] Placeholder - 17 (720p) [83538700].mkv</title>
                            <guid isPermaLink="true">http://localhost/view/321321</guid>
                            <pubDate>Thu, 01 Jan 1970 00:00:00 -0000</pubDate>
                        </item>
                    </channel>
                </rss>
            "#;
    
    let entries = Feed::from_bytes(content.to_vec());
    
    // operation
    
    let mut output = entries.iter();
    
    // control
    
    let item = output.next().unwrap();
    
    assert_eq!(item.title(), Some(b"[Example] Placeholder - 16 (720p) [83538700].mkv".as_slice()));
    assert_eq!(item.link(), Some(b"http://localhost/download/321321.torrent".as_slice()));
    
    let item = output.next().unwrap();
    
    assert!(item.title().is_none());
    assert_eq!(item.link(), Some(b"http://localhost/download/321321.torrent".as_slice()));
    
    assert!(output.next().is_none());
}

#[test]
fn feed_multiple_link() {
    // setup
    
    let content = br#"
                <rss version="2.0">
                    <channel>
                        <title>Example RSS</title>
                        <description>Example RSS Feed</description>
                        <link>http://localhost/</link>
                        <atom:link href="http://localhost/rss" rel="self" type="application/rss+xml"/>
                        <item>
                            <title>[Example] Placeholder - 17 (720p) [83538700].mkv</title>
                            <link>http://localhost/download/123456.torrent</link>
                            <link>http://localhost/download/1234567890.torrent</link>
                            <guid isPermaLink="true">http://localhost/view/123456</guid>
                            <pubDate>Thu, 01 Jan 1970 00:00:00 -0000</pubDate>
                        </item>
                    </channel>
                </rss>
            "#;
    
    let entries = Feed::from_bytes(content.to_vec());
    
    // operation
    
    let mut output = entries.iter();
    
    // control
    
    let item = output.next().unwrap();
    
    assert_eq!(item.title(), Some(b"[Example] Placeholder - 17 (720p) [83538700].mkv".as_slice()));
    assert_eq!(item.link(), Some(b"http://localhost/download/123456.torrent".as_slice()));
    
    assert!(output.next().is_none());
}

#[test]
fn feed_no_items() {
    // setup
    
    let content = br#"
                <rss version="2.0">
                    <channel>
                        <title>Example RSS</title>
                        <description>Example RSS Feed</description>
                        <link>http://localhost/</link>
                        <atom:link href="http://localhost/rss" rel="self" type="application/rss+xml"/>
                    </channel>
                </rss>
            "#;
    
    let entries = Feed::from_bytes(content.to_vec());
    
    // operation
    
    let mut output = entries.iter();
    
    // control
    
    assert!(output.next().is_none());
}

#[test]
fn feed_barebones() {
    // setup
    
    let content = br#"
                <item>
                    <title>[Example] Placeholder - 17 (720p) [83538700].mkv</title>
                    <link>http://localhost/download/123456.torrent</link>
                    <guid isPermaLink="true">http://localhost/view/123456</guid>
                    <pubDate>Thu, 01 Jan 1970 00:00:00 -0000</pubDate>
                </item>
                <item>
                    <title>[Example] Placeholder - 18 (720p) [83538700].mkv</title>
                    <link>http://localhost/download/654321.torrent</link>
                    <guid isPermaLink="true">http://localhost/view/654321</guid>
                    <pubDate>Thu, 01 Jan 1970 00:00:00 -0000</pubDate>
                </item>
                <item>
                    <title>[Example] Placeholder - 19 (720p) [83538700].mkv</title>
                    <link>http://localhost/download/123123.torrent</link>
                    <guid isPermaLink="true">http://localhost/view/123123</guid>
                    <pubDate>Thu, 01 Jan 1970 00:00:00 -0000</pubDate>
                </item>
            "#;
    
    let entries = Feed::from_bytes(content.to_vec());
    
    // operation
    
    let mut output = entries.iter();
    
    // control
    
    let item = output.next().unwrap();
    
    assert_eq!(item.title(), Some(b"[Example] Placeholder - 17 (720p) [83538700].mkv".as_slice()));
    assert_eq!(item.link(), Some(b"http://localhost/download/123456.torrent".as_slice()));
    
    let item = output.next().unwrap();
    
    assert_eq!(item.title(), Some(b"[Example] Placeholder - 18 (720p) [83538700].mkv".as_slice()));
    assert_eq!(item.link(), Some(b"http://localhost/download/654321.torrent".as_slice()));
    
    let item = output.next().unwrap();
    
    assert_eq!(item.title(), Some(b"[Example] Placeholder - 19 (720p) [83538700].mkv".as_slice()));
    assert_eq!(item.link(), Some(b"http://localhost/download/123123.torrent".as_slice()));
    
    assert!(output.next().is_none());
}

#[test]
fn disordered() {
    // setup
    
    let content = br#"
                <rss version="2.0">
                    <channel>
                        <title>Example RSS</title>
                        <description>Example RSS Feed</description>
                        <link>http://localhost/</link>
                        <atom:link href="http://localhost/rss" rel="self" type="application/rss+xml"/>
                        <item>
                            <link>http://localhost/download/123456.torrent</link>
                            <title>[Example] Placeholder - 17 (720p) [83538700].mkv</title>
                            <guid isPermaLink="true">http://localhost/view/123456</guid>
                            <pubDate>Thu, 01 Jan 1970 00:00:00 -0000</pubDate>
                        </item>
                    </channel>
                </rss>
            "#;
    
    let entries = Feed::from_bytes(content.to_vec());
    
    // operation
    
    let mut output = entries.iter();
    
    // control
    
    let item = output.next().unwrap();
    
    assert_eq!(item.title(), Some(b"[Example] Placeholder - 17 (720p) [83538700].mkv".as_slice()));
    assert_eq!(item.link(), Some(b"http://localhost/download/123456.torrent".as_slice()));
    
    assert!(output.next().is_none());
}

#[test]
fn feed_unclosed_item() {
    // setup
    
    let content = br#"
                <rss version="2.0">
                    <channel>
                        <title>Example RSS</title>
                        <description>Example RSS Feed</description>
                        <link>http://localhost/</link>
                        <atom:link href="http://localhost/rss" rel="self" type="application/rss+xml"/>
                        <item>
                        <title>[Example] Placeholder - 17 (720p) [83538700].mkv</title>
                        <link>http://localhost/download/123456.torrent</link>
                        <guid isPermaLink="true">http://localhost/view/123456</guid>
                        <pubDate>Thu, 01 Jan 1970 00:00:00 -0000</pubDate>
                    </channel>
                </rss>
            "#;
    
    let entries = Feed::from_bytes(content.to_vec());
    
    // operation
    
    let mut output = entries.iter();
    
    // control
    
    assert!(output.next().is_none());
}

#[test]
fn feed_missing_link() {
    // setup
    
    let content = br#"
                <rss version="2.0">
                    <channel>
                        <title>Example RSS</title>
                        <description>Example RSS Feed</description>
                        <link>http://localhost/</link>
                        <atom:link href="http://localhost/rss" rel="self" type="application/rss+xml"/>
                        <item>
                            <title>[Example] Placeholder - 17 (720p) [83538700].mkv</title>
                            <link>http://localhost/download/123456.torrent</link>
                            <guid isPermaLink="true">http://localhost/view/123456</guid>
                            <pubDate>Thu, 01 Jan 1970 00:00:00 -0000</pubDate>
                        </item>
                        <item>
                            <title>[Example] Placeholder - 18 (720p) [83538700].mkv</title>
                            <link></link>
                            <guid isPermaLink="true">http://localhost/view/654321</guid>
                            <pubDate>Thu, 01 Jan 1970 00:00:00 -0000</pubDate>
                        </item>
                        <item>
                            <title>[Example] Placeholder - 19 (720p) [83538700].mkv</title>
                            <guid isPermaLink="true">http://localhost/view/654321</guid>
                            <pubDate>Thu, 01 Jan 1970 00:00:00 -0000</pubDate>
                        </item>
                        <item>
                            <title>[Example] Placeholder - 20 (720p) [83538700].mkv</title>
                            <link>http://localhost/download/123123.torrent</link>
                            <guid isPermaLink="true">http://localhost/view/123123</guid>
                            <pubDate>Thu, 01 Jan 1970 00:00:00 -0000</pubDate>
                        </item>
                    </channel>
                </rss>
            "#;
    
    let entries = Feed::from_bytes(content.to_vec());
    
    // operation
    
    let mut output = entries.iter();
    
    // control
    
    let item = output.next().unwrap();
    
    assert_eq!(item.title(), Some(b"[Example] Placeholder - 17 (720p) [83538700].mkv".as_slice()));
    assert_eq!(item.link(), Some(b"http://localhost/download/123456.torrent".as_slice()));
    
    let item = output.next().unwrap();
    
    assert_eq!(item.title(), Some(b"[Example] Placeholder - 18 (720p) [83538700].mkv".as_slice()));
    assert_eq!(item.link(), Some(b"".as_slice()));
    
    let item = output.next().unwrap();
    
    assert_eq!(item.title(), Some(b"[Example] Placeholder - 19 (720p) [83538700].mkv".as_slice()));
    assert!(item.link().is_none());
    
    let item = output.next().unwrap();
    
    assert_eq!(item.title(), Some(b"[Example] Placeholder - 20 (720p) [83538700].mkv".as_slice()));
    assert_eq!(item.link(), Some(b"http://localhost/download/123123.torrent".as_slice()));
    
    assert!(output.next().is_none());
}
