use nadeshiko::candidates::CandidatesEntry;
use nadeshiko::downloads::{DownloadsEntries, DownloadsEntry};

#[test]
fn downloads_valid() {
    // setup
    
    let feed = generate_feed();
    
    let candidates = [
        &CandidatesEntry::new().with_title(String::from("Fictional")),
        &CandidatesEntry::new().with_title(String::from("Not defined")),
        &CandidatesEntry::new().with_title(String::from("Test")),
    ];
    
    // operation
    
    let mut output = DownloadsEntries::get(&feed, &candidates);
    
    // control
    
    let output: Vec<DownloadsEntry> = output.collect_all();
    
    assert_eq!(output, Vec::from([
        DownloadsEntry {
            title: "[Imaginary] Fictional - 10 [480p]",
            link: "http://example.com/invalid",
            episode: 10,
            candidate: &CandidatesEntry::new().with_title(String::from("Fictional")),
        },
        DownloadsEntry {
            title: "test/[Placeholder] Test - 10 [1080p]",
            link: "http://example.com/releases/564683.torrent",
            episode: 10,
            candidate: &CandidatesEntry::new().with_title(String::from("Test")),
        },
        DownloadsEntry {
            title: "[Placeholder] Test - 11 [1080p]",
            link: "http://example.com/releases/8723034.torrent",
            episode: 11,
            candidate: &CandidatesEntry::new().with_title(String::from("Test")),
        },
        DownloadsEntry {
            title: "[Placeholder] Test - 12 [1080p]",
            link: "http://example.com/releases/7821023.torrent",
            episode: 12,
            candidate: &CandidatesEntry::new().with_title(String::from("Test")),
        },
    ]));
}

#[test]
fn downloads_invalid() {
    // setup
    
    let feed = generate_feed();
    
    let candidates = [
        &CandidatesEntry::new().with_title(String::from("Not defined")),
    ];
    
    // operation
    
    let mut output = DownloadsEntries::get(&feed, &candidates);
    
    // control
    
    let output: Vec<DownloadsEntry> = output.collect_all();
    
    assert!(output.is_empty());
}

#[test]
fn downloads_empty() {
    // setup
    
    let feed = Vec::new();
    
    let candidates = Vec::new();
    
    // operation
    
    let mut output = DownloadsEntries::get(&feed, &candidates);
    
    // control
    
    let output: Vec<DownloadsEntry> = output.collect_all();
    
    assert!(output.is_empty());
}

#[test]
fn empty_feed() {
    // setup
    
    let feed = Vec::new();
    
    let candidates = [
        &CandidatesEntry::new().with_title(String::from("Fictional")),
        &CandidatesEntry::new().with_title(String::from("Not defined")),
        &CandidatesEntry::new().with_title(String::from("Test")),
    ];
    
    // operation
    
    let mut output = DownloadsEntries::get(&feed, &candidates);
    
    // control
    
    let output: Vec<DownloadsEntry> = output.collect_all();
    
    assert!(output.is_empty());
}

#[test]
fn downloads_empty_candidates() {
    // setup
    
    let feed = generate_feed();
    
    let candidates = Vec::new();
    
    // operation
    
    let mut output = DownloadsEntries::get(&feed, &candidates);
    
    // control
    
    let output: Vec<DownloadsEntry> = output.collect_all();
    
    assert!(output.is_empty());
}

fn generate_feed() -> Vec<u8> {
    let mut feed = Vec::new();
    
    feed.extend_from_slice(b"<rss>");
    feed.extend_from_slice(b"<channel>");
    
    feed.extend_from_slice(b"<item>");
    feed.extend_from_slice(b"<title>[Imaginary] Fictional - 10 [480p]</title>");
    feed.extend_from_slice(b"<link>http://example.com/invalid</link>");
    feed.extend_from_slice(b"</item>");
    
    feed.extend_from_slice(b"<item>");
    feed.extend_from_slice(b"</item>");
    
    feed.extend_from_slice(b"<item>");
    feed.extend_from_slice(b"<title>[Invalid] Undefined - 2 [720p]</title>");
    feed.extend_from_slice(b"<link>http://example.com/undefined</link>");
    feed.extend_from_slice(b"</item>");
    
    feed.extend_from_slice(b"<item>");
    feed.extend_from_slice(b"<item>");
    feed.extend_from_slice(b"<item>");
    feed.extend_from_slice(b"<title>test/[Placeholder] Test - 10 [1080p]</title>");
    feed.extend_from_slice(b"<link>http://example.com/releases/564683.torrent</link>");
    feed.extend_from_slice(b"</item>");
    
    feed.extend_from_slice(b"<item>");
    feed.extend_from_slice(b"<title>[Placeholder] Test - 11 [1080p]</title>");
    feed.extend_from_slice(b"<link>http://example.com/releases/8723034.torrent</link>");
    feed.extend_from_slice(b"</item>");
    
    feed.extend_from_slice(b"<item>");
    feed.extend_from_slice(b"<title>[Placeholder] Test - 12 [1080p]</title>");
    feed.extend_from_slice(b"<link>http://example.com/releases/7821023.torrent</link>");
    feed.extend_from_slice(b"</item>");
    
    feed.extend_from_slice(b"<item>");
    feed.extend_from_slice(b"<title>title</title>");
    feed.extend_from_slice(b"</item>");
    
    feed.extend_from_slice(b"<item>");
    feed.extend_from_slice(b"<link>link</link>");
    feed.extend_from_slice(b"</item>");
    
    feed.extend_from_slice(b"</channel>");
    feed.extend_from_slice(b"</rss>");
    
    feed
}
