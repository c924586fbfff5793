use nadeshiko::candidates::CandidatesEntry;
use nadeshiko::downloads::{DownloadsEntries, DownloadsEntry};
use nadeshiko::extractor::get;
use nadeshiko::number::first_number;
use nadeshiko::releases::{Releases, ReleasesEntry};
use nadeshiko::rss_feed::RssFeed;

#[test]
fn releases_skip_incomplete_items() {
    let releases = Releases::from_bytes(
        b"<item><title>a</title></item><item><link>b</link></item><item><link>l</link><title>t</title></item><item>".to_vec(),
    );
    let mut iter = releases.iter();
    assert_eq!(iter.next(), Some(ReleasesEntry { title: b"t", link: b"l" }));
    assert_eq!(iter.next(), None);
    assert_eq!(iter.next(), None);
}

#[test]
fn exhausted_feed_stays_exhausted() {
    let mut feed = RssFeed::new(b"<item><title>x</title><link>y</link></item> <item><title>z</title>");
    assert!(feed.next().is_some());
    assert!(feed.next().is_none());
    assert!(feed.next().is_none());
}

#[test]
fn titles_end_at_the_first_closing_tag() {
    let mut feed = RssFeed::new(b"<item><title>a</title>b</title><link>c</link></item>");
    let entry = feed.next().unwrap();
    assert_eq!(entry.title, b"a");
    assert_eq!(entry.link, b"c");
}

#[test]
fn get_without_pieces_agrees_with_first_number() {
    for name in ["[Example] Placeholder - 17 (720p)", "x 0 y", "-13", "a 12 b 34", "007"] {
        assert_eq!(get(name, &[]).map(|n| n as u64), first_number(name.as_bytes()));
    }
}

#[test]
fn pieces_are_taken_out_before_reading() {
    assert_eq!(get("[Group 2] Title 3 - 04 [1080p]", &["Group 2", "Title 3", "1080p"]), Some(4));
    assert_eq!(get("a1b", &["1"]), None);
    assert_eq!(get("12 12", &["12"]), Some(12));
    assert_eq!(get("x9223372036854775807", &[]), Some(i64::MAX));
    assert_eq!(get("x9223372036854775808", &[]), None);
    assert_eq!(get("3.", &[]), Some(3));
    assert_eq!(get("3.x", &[]), Some(3));
    assert_eq!(get("3 .5", &[]), Some(3));
}

#[test]
fn downloaded_episodes_are_not_offered_again() {
    let feed = b"<item><title>[G] Show - 3</title><link>l3</link></item><item><title>[G] Show - 4</title><link>l4</link></item>".to_vec();
    let candidate = CandidatesEntry::new().with_title(String::from("Show")).with_downloaded(3);
    let candidates = [&candidate];
    let mut entries = DownloadsEntries::get(&feed, &candidates);
    let output: Vec<DownloadsEntry> = entries.collect_all();
    assert_eq!(output.len(), 1);
    assert_eq!(output[0].episode, 4);
    assert_eq!(output[0].link, "l4");
    assert!(candidate.is_downloaded(3));
    assert!(!candidate.is_downloaded(4));
}

#[test]
fn titles_that_are_not_utf8_are_passed_over() {
    let mut feed = b"<item><title>Show - 1 ".to_vec();
    feed.push(0xff);
    feed.extend_from_slice(b"</title><link>l1</link></item><item><title>Show - 2</title><link>l2</link></item>");
    let candidate = CandidatesEntry::new().with_title(String::from("Show"));
    let candidates = [&candidate];
    let mut entries = DownloadsEntries::get(&feed, &candidates);
    let output: Vec<DownloadsEntry> = entries.collect_all();
    assert_eq!(output.len(), 1);
    assert_eq!(output[0].title, "Show - 2");
}

#[test]
fn first_relevant_candidate_decides() {
    let feed = b"<item><title>Show - 1.5</title><link>l</link></item>".to_vec();
    let first = CandidatesEntry::new().with_title(String::from("Show"));
    let second = CandidatesEntry::new().with_title(String::from("Sho"));
    let candidates = [&first, &second];
    let mut entries = DownloadsEntries::get(&feed, &candidates);
    assert!(entries.next().is_none());
}
