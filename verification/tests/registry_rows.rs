//! Tests for the subscription registry and the record types.

use ozb::model::Subscription;
use ozb::registry::SubscriptionRegistry;
use ozb::types::{AutocompleteKeywords, Categories, MongoDbPayload, RegisteredKeywords};

fn sub(id: u64, keyword: &[u8]) -> Subscription {
    Subscription {
        id,
        keyword: keyword.to_vec(),
        owner_id: 42,
        delivery_target: 1001,
        categories: Vec::new(),
    }
}

#[test]
fn registry_keeps_registration_order() {
    let mut reg = SubscriptionRegistry::new();
    reg.add(sub(1, b"widget"));
    reg.add(sub(2, b"gadget"));
    let subs = reg.active_subscriptions();
    assert_eq!(subs.len(), 2);
    assert_eq!(subs[0].keyword, b"widget".to_vec());
    assert_eq!(subs[1].keyword, b"gadget".to_vec());
}

#[test]
fn registry_removes_by_id() {
    let mut reg = SubscriptionRegistry::new();
    reg.add(sub(1, b"widget"));
    reg.add(sub(2, b"gadget"));
    let removed = reg.remove(1).unwrap();
    assert_eq!(removed.keyword, b"widget".to_vec());
    assert_eq!(reg.active_subscriptions().len(), 1);
    assert!(reg.remove(9).is_none());
    assert_eq!(reg.active_subscriptions().len(), 1);
}

#[test]
fn subscriptions_for_filters_by_owner_and_target() {
    let mut reg = SubscriptionRegistry::new();
    let mut a = sub(1, b"widget");
    a.owner_id = 42;
    a.delivery_target = 1001;
    let mut b = sub(2, b"gadget");
    b.owner_id = 42;
    b.delivery_target = 2002;
    let mut c = sub(3, b"gizmo");
    c.owner_id = 7;
    c.delivery_target = 1001;
    let mut d = sub(4, b"doodad");
    d.owner_id = 42;
    d.delivery_target = 1001;
    reg.add(a);
    reg.add(b);
    reg.add(c);
    reg.add(d);
    let mine = reg.subscriptions_for(42, 1001);
    assert_eq!(mine.len(), 2);
    assert_eq!(mine[0].keyword, b"widget".to_vec());
    assert_eq!(mine[1].keyword, b"doodad".to_vec());
}

#[test]
fn category_selection_with_wildcard_collapses() {
    let picked = vec![b"Computing".to_vec(), b"All".to_vec(), b"Gaming".to_vec()];
    assert_eq!(
        ozb::registry::canonicalize_categories(picked),
        vec![b"All".to_vec()]
    );
    let plain = vec![b"Computing".to_vec(), b"Gaming".to_vec()];
    assert_eq!(ozb::registry::canonicalize_categories(plain.clone()), plain);
    let empty: Vec<Vec<u8>> = Vec::new();
    assert_eq!(ozb::registry::canonicalize_categories(empty.clone()), empty);
}

#[test]
fn categories_offer_names_and_emoji() {
    let all = Categories::all_categories();
    assert_eq!(all.len(), 22);
    assert!(matches!(all[0], Categories::All));
    assert_eq!(Categories::BooksAndMagazines.name(), "Books & Magazines");
    assert_eq!(Categories::Gaming.name(), "Gaming");
    assert_eq!(Categories::Gaming.emoji(), "\u{1F3AE}");
    assert_eq!(Categories::Computing.name_bytes(), b"Computing".to_vec());
}

#[test]
fn record_types_carry_their_fields() {
    let payload = MongoDbPayload::default();
    assert_eq!(payload.detail.full_document.post_id, "");
    let row = RegisteredKeywords {
        id: 3,
        keyword: "widget".to_string(),
        owner: 11,
        notification_id: 12,
        categories: vec![1, 2],
    };
    assert_eq!(row.categories.len(), 2);
    let auto = AutocompleteKeywords {
        id: 3,
        keyword: "widget".to_string(),
        categories: vec!["Computing".to_string()],
    };
    assert_eq!(auto.categories[0], "Computing");
}
