//! End-to-end scenarios: feed poll, ingestion, trigger pass, audit trail.

use ozb::ingest::{run_ingestor_once, PollOutcome};
use ozb::model::Subscription;
use ozb::store::ItemStore;
use ozb::worker::run_trigger_pass;

const FEED: &str = "<?xml version=\"1.0\" encoding=\"UTF-8\"?>\
<rss version=\"2.0\" xmlns:media=\"http://search.yahoo.com/mrss/\">\
<channel><title>deals</title><link>https://example.com</link>\
<description>deal feed</description>\
<item>\
<title>50% off Widgets</title>\
<link>https://example.com/deal/1</link>\
<description>&lt;p&gt;Great &lt;b&gt;deal&lt;/b&gt;&lt;/p&gt;</description>\
<guid isPermaLink=\"false\">deal-1 trailing-junk</guid>\
<pubDate>Sun, 26 Mar 2023 17:29:29 +1100</pubDate>\
<category>Computing</category>\
<media:thumbnail url=\"https://example.com/t.png\"/>\
</item>\
</channel></rss>";

fn widget_sub(categories: &[&[u8]]) -> Subscription {
    Subscription {
        id: 7,
        keyword: b"widget".to_vec(),
        owner_id: 42,
        delivery_target: 1001,
        categories: categories.iter().map(|c| c.to_vec()).collect(),
    }
}

#[test]
fn ingest_parses_entry_fields() {
    let mut store = ItemStore::new();
    let report = run_ingestor_once(&mut store, PollOutcome::Content(FEED.as_bytes().to_vec()));
    assert!(!report.feed_error);
    assert_eq!(report.stored, 1);
    assert_eq!(report.skipped, 0);
    assert_eq!(store.row_count(), 1);
    let it = store.find_by_external_id(&b"deal-1".to_vec()).unwrap();
    assert_eq!(it.title, b"50% off Widgets".to_vec());
    assert_eq!(it.description_raw, b"<p>Great <b>deal</b></p>".to_vec());
    assert_eq!(it.link, b"https://example.com/deal/1".to_vec());
    assert_eq!(it.thumbnail, Some(b"https://example.com/t.png".to_vec()));
    assert_eq!(it.categories, vec![b"Computing".to_vec()]);
    // Sun, 26 Mar 2023 17:29:29 +1100 is 2023-03-26 06:29:29 UTC
    assert_eq!(it.published_at, 1_679_812_169);
    assert!(!it.notified);
}

#[test]
fn end_to_end_match_notify_audit() {
    let mut store = ItemStore::new();
    run_ingestor_once(&mut store, PollOutcome::Content(FEED.as_bytes().to_vec()));
    let subs = vec![widget_sub(&[])];
    let batches = run_trigger_pass(&mut store, &subs, 10, 1_700_000_000);
    assert_eq!(batches.len(), 1);
    let b = &batches[0];
    assert_eq!(b.delivery_target, 1001);
    assert_eq!(b.external_id, b"deal-1".to_vec());
    assert_eq!(b.title, b"50% off Widgets".to_vec());
    assert_eq!(b.link, b"https://example.com/deal/1".to_vec());
    assert_eq!(b.thumbnail, Some(b"https://example.com/t.png".to_vec()));
    assert_eq!(b.categories, vec![b"Computing".to_vec()]);
    assert_eq!(b.matched_keywords, vec![b"widget".to_vec()]);
    assert_eq!(b.mention_subjects, vec![42]);
    let it = store.find_by_external_id(&b"deal-1".to_vec()).unwrap();
    assert!(it.notified);
    assert_eq!(store.audit.len(), 1);
    let a = &store.audit[0];
    assert_eq!(a.item_id, it.id);
    assert_eq!(a.external_id, b"deal-1".to_vec());
    assert_eq!(a.delivery_target, 1001);
    assert_eq!(a.delivered_at, 1_700_000_000);
    assert_eq!(a.matched_subscriptions.len(), 1);
    assert_eq!(a.matched_subscriptions[0].keyword, b"widget".to_vec());
}

#[test]
fn non_matching_category_still_marks_processed() {
    let mut store = ItemStore::new();
    run_ingestor_once(&mut store, PollOutcome::Content(FEED.as_bytes().to_vec()));
    let subs = vec![widget_sub(&[b"Gaming"])];
    let batches = run_trigger_pass(&mut store, &subs, 10, 1_700_000_000);
    assert_eq!(batches.len(), 0);
    assert_eq!(store.audit.len(), 0);
    let it = store.find_by_external_id(&b"deal-1".to_vec()).unwrap();
    assert!(it.notified);
}

#[test]
fn not_modified_poll_changes_nothing() {
    let mut store = ItemStore::new();
    run_ingestor_once(&mut store, PollOutcome::Content(FEED.as_bytes().to_vec()));
    let report = run_ingestor_once(&mut store, PollOutcome::NotModified);
    assert!(!report.feed_error);
    assert_eq!(report.stored, 0);
    assert_eq!(report.skipped, 0);
    assert_eq!(store.row_count(), 1);
    let it = store.find_by_external_id(&b"deal-1".to_vec()).unwrap();
    assert_eq!(it.title, b"50% off Widgets".to_vec());
}

#[test]
fn repolling_the_same_feed_adds_no_rows() {
    let mut store = ItemStore::new();
    run_ingestor_once(&mut store, PollOutcome::Content(FEED.as_bytes().to_vec()));
    let report = run_ingestor_once(&mut store, PollOutcome::Content(FEED.as_bytes().to_vec()));
    assert!(!report.feed_error);
    assert_eq!(report.stored, 1);
    assert_eq!(store.row_count(), 1);
}

#[test]
fn a_second_pass_notifies_nothing_new() {
    let mut store = ItemStore::new();
    run_ingestor_once(&mut store, PollOutcome::Content(FEED.as_bytes().to_vec()));
    let subs = vec![widget_sub(&[])];
    let first = run_trigger_pass(&mut store, &subs, 10, 1_700_000_000);
    assert_eq!(first.len(), 1);
    let second = run_trigger_pass(&mut store, &subs, 10, 1_700_000_060);
    assert_eq!(second.len(), 0);
    assert_eq!(store.audit.len(), 1);
}

#[test]
fn one_target_gets_one_batch_with_all_keywords_and_mentions() {
    let mut store = ItemStore::new();
    run_ingestor_once(&mut store, PollOutcome::Content(FEED.as_bytes().to_vec()));
    let mut s1 = widget_sub(&[]);
    s1.id = 1;
    s1.owner_id = 42;
    let mut s2 = widget_sub(&[]);
    s2.id = 2;
    s2.owner_id = 43;
    s2.keyword = b"off".to_vec();
    let mut s3 = widget_sub(&[]);
    s3.id = 3;
    s3.owner_id = 42;
    s3.keyword = b"widgets".to_vec();
    let subs = vec![s1, s2, s3];
    let batches = run_trigger_pass(&mut store, &subs, 10, 1_700_000_000);
    assert_eq!(batches.len(), 1);
    let b = &batches[0];
    assert_eq!(
        b.matched_keywords,
        vec![b"widget".to_vec(), b"off".to_vec(), b"widgets".to_vec()]
    );
    // subscriber 42 is mentioned once though two of their keywords matched
    assert_eq!(b.mention_subjects, vec![42, 43]);
    assert_eq!(store.audit.len(), 1);
    assert_eq!(store.audit[0].matched_subscriptions.len(), 3);
}

#[test]
fn distinct_targets_get_distinct_batches_and_audits() {
    let mut store = ItemStore::new();
    run_ingestor_once(&mut store, PollOutcome::Content(FEED.as_bytes().to_vec()));
    let mut s1 = widget_sub(&[]);
    s1.id = 1;
    s1.delivery_target = 1001;
    let mut s2 = widget_sub(&[]);
    s2.id = 2;
    s2.delivery_target = 2002;
    s2.owner_id = 77;
    let subs = vec![s1, s2];
    let batches = run_trigger_pass(&mut store, &subs, 10, 1_700_000_000);
    assert_eq!(batches.len(), 2);
    assert_eq!(batches[0].delivery_target, 1001);
    assert_eq!(batches[1].delivery_target, 2002);
    assert_eq!(batches[1].mention_subjects, vec![77]);
    assert_eq!(store.audit.len(), 2);
    assert_eq!(store.audit[0].delivery_target, 1001);
    assert_eq!(store.audit[1].delivery_target, 2002);
}

const FEED_TWO: &str = "<?xml version=\"1.0\" encoding=\"UTF-8\"?>\
<rss version=\"2.0\"><channel><title>t</title>\
<link>https://example.com</link><description>d</description>\
<item><title>widget alpha</title><guid>two-1</guid>\
<link>https://example.com/a</link><description>x</description>\
<pubDate>Sun, 26 Mar 2023 17:29:29 +1100</pubDate></item>\
<item><title>widget beta</title><guid>two-2</guid>\
<link>https://example.com/b</link><description>y</description>\
<pubDate>Sun, 26 Mar 2023 18:29:29 +1100</pubDate></item>\
</channel></rss>";

#[test]
fn claim_limit_splits_work_across_passes() {
    let mut store = ItemStore::new();
    run_ingestor_once(&mut store, PollOutcome::Content(FEED_TWO.as_bytes().to_vec()));
    assert_eq!(store.row_count(), 2);
    let subs = vec![widget_sub(&[])];
    let first = run_trigger_pass(&mut store, &subs, 1, 1_700_000_000);
    assert_eq!(first.len(), 1);
    assert_eq!(first[0].external_id, b"two-1".to_vec());
    let second = run_trigger_pass(&mut store, &subs, 1, 1_700_000_060);
    assert_eq!(second.len(), 1);
    assert_eq!(second[0].external_id, b"two-2".to_vec());
    let third = run_trigger_pass(&mut store, &subs, 1, 1_700_000_120);
    assert_eq!(third.len(), 0);
    assert_eq!(store.audit.len(), 2);
}

#[test]
fn one_pass_audits_every_claimed_matching_item() {
    let mut store = ItemStore::new();
    run_ingestor_once(&mut store, PollOutcome::Content(FEED_TWO.as_bytes().to_vec()));
    let subs = vec![widget_sub(&[])];
    let batches = run_trigger_pass(&mut store, &subs, 10, 1_700_000_000);
    assert_eq!(batches.len(), 2);
    assert_eq!(store.audit.len(), 2);
    assert_eq!(store.audit[0].external_id, b"two-1".to_vec());
    assert_eq!(store.audit[1].external_id, b"two-2".to_vec());
    assert!(store.find_by_external_id(&b"two-1".to_vec()).unwrap().notified);
    assert!(store.find_by_external_id(&b"two-2".to_vec()).unwrap().notified);
}
