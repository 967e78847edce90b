//! Tests for the match engine: keyword containment and category rules.

use ozb::model::{FeedItem, Subscription};

fn item(title: &[u8], description: &[u8], categories: &[&[u8]]) -> FeedItem {
    FeedItem {
        id: 1,
        external_id: b"x-1".to_vec(),
        title: title.to_vec(),
        description_raw: description.to_vec(),
        link: b"https://example.com/x-1".to_vec(),
        thumbnail: None,
        categories: categories.iter().map(|c| c.to_vec()).collect(),
        published_at: 0,
        notified: false,
    }
}

fn sub(keyword: &[u8], categories: &[&[u8]]) -> Subscription {
    Subscription {
        id: 7,
        keyword: keyword.to_vec(),
        owner_id: 42,
        delivery_target: 1001,
        categories: categories.iter().map(|c| c.to_vec()).collect(),
    }
}

#[test]
fn keyword_matches_title_case_insensitively() {
    let it = item(b"50% off Widgets", b"plain", &[b"Computing"]);
    assert!(ozb::match_engine::matches(&it, &sub(b"WIDGET", &[])));
    assert!(!ozb::match_engine::matches(&it, &sub(b"gadget", &[])));
}

#[test]
fn keyword_matches_normalized_description() {
    let it = item(b"headline", b"<p>Great <b>deal</b></p>", &[b"Computing"]);
    assert!(ozb::match_engine::matches(&it, &sub(b"deal", &[])));
}

#[test]
fn empty_keyword_matches_everything() {
    let it = item(b"anything", b"at all", &[b"Computing"]);
    assert!(ozb::match_engine::matches(&it, &sub(b"", &[])));
}

#[test]
fn empty_categories_match_any_item() {
    let it = item(b"widget sale", b"x", &[b"Computing", b"Gaming"]);
    assert!(ozb::match_engine::matches(&it, &sub(b"widget", &[])));
}

#[test]
fn wildcard_behaves_like_empty_categories() {
    let with_cats = item(b"widget sale", b"x", &[b"Computing"]);
    let no_cats = item(b"widget sale", b"x", &[]);
    let empty = sub(b"widget", &[]);
    let wild = sub(b"widget", &[b"All"]);
    assert_eq!(
        ozb::match_engine::matches(&with_cats, &empty),
        ozb::match_engine::matches(&with_cats, &wild)
    );
    assert_eq!(
        ozb::match_engine::matches(&no_cats, &empty),
        ozb::match_engine::matches(&no_cats, &wild)
    );
    assert!(ozb::match_engine::matches(&with_cats, &wild));
}

#[test]
fn category_must_intersect_when_not_wildcard() {
    let it = item(b"widget sale", b"x", &[b"Computing"]);
    assert!(ozb::match_engine::matches(&it, &sub(b"widget", &[b"Gaming", b"Computing"])));
    assert!(!ozb::match_engine::matches(&it, &sub(b"widget", &[b"Gaming"])));
}

#[test]
fn category_names_compare_byte_for_byte() {
    let it = item(b"widget sale", b"x", &[b"Books & Magazines"]);
    assert!(ozb::match_engine::matches(&it, &sub(b"widget", &[b"Books & Magazines"])));
    assert!(!ozb::match_engine::matches(&it, &sub(b"widget", &[b"books & magazines"])));
}

#[test]
fn keyword_spanning_title_end_and_description_start() {
    // the haystack is the folded title directly followed by the folded
    // normalized description
    let it = item(b"endsWith", b"starts here", &[b"Computing"]);
    assert!(ozb::match_engine::matches(&it, &sub(b"endswithstarts", &[])));
}

#[test]
fn wildcard_name_is_the_all_category() {
    assert_eq!(ozb::match_engine::wildcard_bytes(), b"All".to_vec());
    assert_eq!(ozb::types::Categories::All.name_bytes(), b"All".to_vec());
    assert_eq!(ozb::types::Categories::All.name(), "All");
}
