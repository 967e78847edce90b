//! Tests for the item store: idempotent upserts, exclusive claims, and the
//! committed notified transition.

use ozb::model::ItemDraft;
use ozb::store::ItemStore;

fn draft(external_id: &[u8], title: &[u8]) -> ItemDraft {
    ItemDraft {
        external_id: external_id.to_vec(),
        title: title.to_vec(),
        description_raw: b"d".to_vec(),
        link: b"https://example.com".to_vec(),
        thumbnail: None,
        categories: vec![b"Computing".to_vec()],
        published_at: 100,
    }
}

#[test]
fn upsert_same_external_id_twice_keeps_one_row_with_latest_title() {
    let mut store = ItemStore::new();
    let id1 = store.upsert(draft(b"deal-1", b"first title"));
    let id2 = store.upsert(draft(b"deal-1", b"second title"));
    assert_eq!(id1, id2);
    assert_eq!(store.row_count(), 1);
    let it = store.find_by_external_id(&b"deal-1".to_vec()).unwrap();
    assert_eq!(it.title, b"second title".to_vec());
    assert!(!it.notified);
}

#[test]
fn upsert_distinct_external_ids_adds_rows() {
    let mut store = ItemStore::new();
    store.upsert(draft(b"deal-1", b"a"));
    store.upsert(draft(b"deal-2", b"b"));
    assert_eq!(store.row_count(), 2);
}

#[test]
fn reingestion_does_not_reset_notified() {
    let mut store = ItemStore::new();
    let id = store.upsert(draft(b"deal-1", b"a"));
    let claimed = store.claim_unprocessed(10);
    assert_eq!(claimed.len(), 1);
    store.mark_notified(&vec![id]);
    store.upsert(draft(b"deal-1", b"refreshed"));
    let it = store.find_by_external_id(&b"deal-1".to_vec()).unwrap();
    assert!(it.notified);
    assert_eq!(it.title, b"refreshed".to_vec());
    // a notified row is never claimed again
    assert_eq!(store.claim_unprocessed(10).len(), 0);
}

#[test]
fn two_claims_return_disjoint_sets() {
    let mut store = ItemStore::new();
    for k in 0..6u8 {
        store.upsert(draft(&[b'd', b'-', b'0' + k], b"t"));
    }
    let first = store.claim_unprocessed(4);
    let second = store.claim_unprocessed(4);
    assert_eq!(first.len(), 4);
    assert_eq!(second.len(), 2);
    for a in &first {
        for b in &second {
            assert_ne!(a.id, b.id);
            assert_ne!(a.external_id, b.external_id);
        }
    }
}

#[test]
fn claim_respects_limit_and_order() {
    let mut store = ItemStore::new();
    let id_a = store.upsert(draft(b"a", b"t"));
    let id_b = store.upsert(draft(b"b", b"t"));
    let _ = store.upsert(draft(b"c", b"t"));
    let claimed = store.claim_unprocessed(2);
    assert_eq!(claimed.len(), 2);
    assert_eq!(claimed[0].id, id_a);
    assert_eq!(claimed[1].id, id_b);
}

#[test]
fn released_rows_are_claimable_again() {
    let mut store = ItemStore::new();
    let id = store.upsert(draft(b"a", b"t"));
    let claimed = store.claim_unprocessed(10);
    assert_eq!(claimed.len(), 1);
    // while claimed, nobody else gets the row
    assert_eq!(store.claim_unprocessed(10).len(), 0);
    store.release_claims(&vec![id]);
    // after rollback the row is unprocessed and eligible again
    let again = store.claim_unprocessed(10);
    assert_eq!(again.len(), 1);
    assert!(!again[0].notified);
}

#[test]
fn mark_notified_releases_the_claim_and_sticks() {
    let mut store = ItemStore::new();
    let id = store.upsert(draft(b"a", b"t"));
    store.claim_unprocessed(10);
    store.mark_notified(&vec![id]);
    let it = store.find_by_external_id(&b"a".to_vec()).unwrap();
    assert!(it.notified);
    assert_eq!(store.claim_unprocessed(10).len(), 0);
}

#[test]
fn find_by_external_id_misses_cleanly() {
    let store = ItemStore::new();
    assert!(store.find_by_external_id(&b"nope".to_vec()).is_none());
}

#[test]
fn interleaved_workers_mark_each_item_once() {
    let mut store = ItemStore::new();
    let mut all_ids: Vec<u64> = Vec::new();
    for k in 0..4u8 {
        all_ids.push(store.upsert(draft(&[b'w', b'-', b'0' + k], b"t")));
    }
    // two workers claim while both passes are in flight
    let w1: Vec<u64> = store.claim_unprocessed(2).iter().map(|it| it.id).collect();
    let w2: Vec<u64> = store.claim_unprocessed(10).iter().map(|it| it.id).collect();
    assert_eq!(w1.len(), 2);
    assert_eq!(w2.len(), 2);
    for a in &w1 {
        assert!(!w2.contains(a));
    }
    // each worker commits only its own claim; every item ends up notified
    store.mark_notified(&w2);
    store.mark_notified(&w1);
    for id in &all_ids {
        assert!(w1.contains(id) ^ w2.contains(id));
    }
    assert_eq!(store.claim_unprocessed(10).len(), 0);
}
