//! Tests for entry preparation: skip reasons, tokenization, unescaping.

use ozb::ingest::{
    parse_feed, prepare_entry, run_ingestor_once, unescape_amp_exec, PollOutcome, RawEntry,
    SkipReason,
};
use ozb::store::ItemStore;

fn full_entry() -> RawEntry {
    RawEntry {
        guid: Some(b"deal-9 rest".to_vec()),
        title: Some(b"a title".to_vec()),
        pub_date: Some(b"Sun, 26 Mar 2023 17:29:29 +1100".to_vec()),
        link: Some(b"https://example.com/9".to_vec()),
        description: Some(b"text".to_vec()),
        thumbnail: None,
        categories: vec![b"Books &amp; Magazines".to_vec()],
    }
}

#[test]
fn a_complete_entry_prepares() {
    let d = prepare_entry(&full_entry()).unwrap();
    assert_eq!(d.external_id, b"deal-9".to_vec());
    assert_eq!(d.title, b"a title".to_vec());
    assert_eq!(d.published_at, 1_679_812_169);
    assert_eq!(d.categories, vec![b"Books & Magazines".to_vec()]);
}

#[test]
fn missing_guid_is_skipped() {
    let mut e = full_entry();
    e.guid = None;
    assert_eq!(prepare_entry(&e).unwrap_err(), SkipReason::MissingGuid);
    let mut e2 = full_entry();
    e2.guid = Some(b"   \t ".to_vec());
    assert_eq!(prepare_entry(&e2).unwrap_err(), SkipReason::MissingGuid);
}

#[test]
fn missing_title_is_skipped() {
    let mut e = full_entry();
    e.title = None;
    assert_eq!(prepare_entry(&e).unwrap_err(), SkipReason::MissingTitle);
}

#[test]
fn missing_date_is_skipped() {
    let mut e = full_entry();
    e.pub_date = None;
    assert_eq!(prepare_entry(&e).unwrap_err(), SkipReason::MissingDate);
}

#[test]
fn unparsable_date_is_skipped() {
    let mut e = full_entry();
    e.pub_date = Some(b"yesterday at noon".to_vec());
    assert_eq!(prepare_entry(&e).unwrap_err(), SkipReason::BadDate);
}

#[test]
fn missing_link_is_skipped() {
    let mut e = full_entry();
    e.link = None;
    assert_eq!(prepare_entry(&e).unwrap_err(), SkipReason::MissingLink);
}

#[test]
fn missing_description_is_skipped() {
    let mut e = full_entry();
    e.description = None;
    assert_eq!(prepare_entry(&e).unwrap_err(), SkipReason::MissingDescription);
}

#[test]
fn unescape_resolves_each_entity_once() {
    assert_eq!(unescape_amp_exec(b"Books &amp; Magazines"), b"Books & Magazines".to_vec());
    assert_eq!(unescape_amp_exec(b"&amp;&amp;"), b"&&".to_vec());
    assert_eq!(unescape_amp_exec(b"&amp;amp;"), b"&amp;".to_vec());
    assert_eq!(unescape_amp_exec(b"no entity"), b"no entity".to_vec());
    assert_eq!(unescape_amp_exec(b""), b"".to_vec());
}

#[test]
fn not_a_feed_is_reported_and_store_untouched() {
    let mut store = ItemStore::new();
    let report = run_ingestor_once(&mut store, PollOutcome::Content(b"{}".to_vec()));
    assert!(report.feed_error);
    assert_eq!(store.row_count(), 0);
    assert!(parse_feed(b"{}").is_none());
}

#[test]
fn a_bad_entry_does_not_abort_the_batch() {
    let feed = "<?xml version=\"1.0\" encoding=\"UTF-8\"?>\
<rss version=\"2.0\"><channel><title>t</title>\
<link>https://example.com</link><description>d</description>\
<item><title>no guid here</title>\
<link>https://example.com/1</link><description>x</description>\
<pubDate>Sun, 26 Mar 2023 17:29:29 +1100</pubDate></item>\
<item><title>good</title><guid>ok-1</guid>\
<link>https://example.com/2</link><description>y</description>\
<pubDate>Sun, 26 Mar 2023 17:29:29 +1100</pubDate></item>\
</channel></rss>";
    let mut store = ItemStore::new();
    let report = run_ingestor_once(&mut store, PollOutcome::Content(feed.as_bytes().to_vec()));
    assert!(!report.feed_error);
    assert_eq!(report.skipped, 1);
    assert_eq!(report.stored, 1);
    assert_eq!(store.row_count(), 1);
    assert!(store.find_by_external_id(&b"ok-1".to_vec()).is_some());
}
