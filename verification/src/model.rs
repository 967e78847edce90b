//! The data model: feed items, subscriptions, and their ghost views.
//!
//! All text is carried as bytes; keyword matching and case folding are
//! byte-level, ASCII-only operations. Identities (items, subscribers,
//! delivery targets) are plain integers.

use vstd::prelude::*;

verus! {

/// The mathematical value of an optional byte vector.
pub open spec fn opt_bytes_view(v: Option<Vec<u8>>) -> Option<Seq<u8>> {
    match v {
        Some(b) => Some(b@),
        None => None,
    }
}

/// One ingested content entry.
#[derive(Debug)]
pub struct FeedItem {
    /// Internally generated, stable primary key.
    pub id: u64,
    /// The feed's own identifier; globally unique, the dedup key.
    pub external_id: Vec<u8>,
    pub title: Vec<u8>,
    pub description_raw: Vec<u8>,
    pub link: Vec<u8>,
    pub thumbnail: Option<Vec<u8>>,
    pub categories: Vec<Vec<u8>>,
    pub published_at: i64,
    /// Set once by the trigger worker; never reset.
    pub notified: bool,
}

/// The mathematical value of a `FeedItem`.
pub struct FeedItemView {
    pub id: u64,
    pub external_id: Seq<u8>,
    pub title: Seq<u8>,
    pub description_raw: Seq<u8>,
    pub link: Seq<u8>,
    pub thumbnail: Option<Seq<u8>>,
    pub categories: Seq<Seq<u8>>,
    pub published_at: i64,
    pub notified: bool,
}

impl View for FeedItem {
    type V = FeedItemView;

    open spec fn view(&self) -> FeedItemView {
        FeedItemView {
            id: self.id,
            external_id: self.external_id@,
            title: self.title@,
            description_raw: self.description_raw@,
            link: self.link@,
            thumbnail: opt_bytes_view(self.thumbnail),
            categories: self.categories.deep_view(),
            published_at: self.published_at,
            notified: self.notified,
        }
    }
}

/// The fields of an item that ingestion supplies; the store assigns the key
/// and owns the notified flag.
#[derive(Debug)]
pub struct ItemDraft {
    pub external_id: Vec<u8>,
    pub title: Vec<u8>,
    pub description_raw: Vec<u8>,
    pub link: Vec<u8>,
    pub thumbnail: Option<Vec<u8>>,
    pub categories: Vec<Vec<u8>>,
    pub published_at: i64,
}

/// The mathematical value of an `ItemDraft`.
pub struct ItemDraftView {
    pub external_id: Seq<u8>,
    pub title: Seq<u8>,
    pub description_raw: Seq<u8>,
    pub link: Seq<u8>,
    pub thumbnail: Option<Seq<u8>>,
    pub categories: Seq<Seq<u8>>,
    pub published_at: i64,
}

impl View for ItemDraft {
    type V = ItemDraftView;

    open spec fn view(&self) -> ItemDraftView {
        ItemDraftView {
            external_id: self.external_id@,
            title: self.title@,
            description_raw: self.description_raw@,
            link: self.link@,
            thumbnail: opt_bytes_view(self.thumbnail),
            categories: self.categories.deep_view(),
            published_at: self.published_at,
        }
    }
}

/// A standing keyword/category interest filter, read from the registry.
#[derive(Debug)]
pub struct Subscription {
    pub id: u64,
    /// Compared case-insensitively against title and normalized description.
    pub keyword: Vec<u8>,
    /// The subscriber to mention in a delivery.
    pub owner_id: u64,
    /// The channel the notification is delivered to.
    pub delivery_target: u64,
    /// Empty, or holding the wildcard, means: match any category.
    pub categories: Vec<Vec<u8>>,
}

/// The mathematical value of a `Subscription`.
pub struct SubscriptionView {
    pub id: u64,
    pub keyword: Seq<u8>,
    pub owner_id: u64,
    pub delivery_target: u64,
    pub categories: Seq<Seq<u8>>,
}

impl View for Subscription {
    type V = SubscriptionView;

    open spec fn view(&self) -> SubscriptionView {
        SubscriptionView {
            id: self.id,
            keyword: self.keyword@,
            owner_id: self.owner_id,
            delivery_target: self.delivery_target,
            categories: self.categories.deep_view(),
        }
    }
}

impl DeepView for Subscription {
    type V = SubscriptionView;

    open spec fn deep_view(&self) -> SubscriptionView {
        self.view()
    }
}

impl DeepView for FeedItem {
    type V = FeedItemView;

    open spec fn deep_view(&self) -> FeedItemView {
        self.view()
    }
}

/// Whether two byte vectors hold the same bytes.
pub fn bytes_eq(a: &Vec<u8>, b: &Vec<u8>) -> (r: bool)
    ensures
        r == (a@ == b@),
{
    if a.len() != b.len() {
        assert(a@ != b@);
        return false;
    }
    let mut i: usize = 0;
    while i < a.len()
        invariant
            a@.len() == b@.len(),
            0 <= i <= a@.len(),
            forall|k: int| 0 <= k < i ==> a@[k] == b@[k],
        decreases a@.len() - i,
    {
        if a[i] != b[i] {
            return false;
        }
        i = i + 1;
    }
    assert(a@ =~= b@);
    true
}

/// Copies a byte vector.
pub fn clone_bytes(v: &Vec<u8>) -> (r: Vec<u8>)
    ensures
        r@ == v@,
{
    let r = crate::normalize::copy_range(v.as_slice(), 0, v.len());
    assert(r@ =~= v@);
    r
}

/// Copies an optional byte vector.
pub fn clone_bytes_opt(v: &Option<Vec<u8>>) -> (r: Option<Vec<u8>>)
    ensures
        opt_bytes_view(r) == opt_bytes_view(*v),
{
    match v {
        Some(b) => Some(clone_bytes(b)),
        None => None,
    }
}

/// Copies a list of byte vectors.
pub fn clone_byte_list(v: &Vec<Vec<u8>>) -> (r: Vec<Vec<u8>>)
    ensures
        r.deep_view() == v.deep_view(),
        r@.len() == v@.len(),
{
    let mut r: Vec<Vec<u8>> = Vec::new();
    let mut i: usize = 0;
    while i < v.len()
        invariant
            0 <= i <= v@.len(),
            r@.len() == i,
            forall|k: int| 0 <= k < i ==> r@[k]@ == v@[k]@,
        decreases v@.len() - i,
    {
        r.push(clone_bytes(&v[i]));
        i = i + 1;
    }
    assert(r.deep_view() =~~= v.deep_view());
    r
}

/// Copies a feed item.
pub fn clone_item(it: &FeedItem) -> (r: FeedItem)
    ensures
        r@ == it@,
{
    let r = FeedItem {
        id: it.id,
        external_id: clone_bytes(&it.external_id),
        title: clone_bytes(&it.title),
        description_raw: clone_bytes(&it.description_raw),
        link: clone_bytes(&it.link),
        thumbnail: clone_bytes_opt(&it.thumbnail),
        categories: clone_byte_list(&it.categories),
        published_at: it.published_at,
        notified: it.notified,
    };
    assert(r@ == it@) by {
        assert(r@.categories =~~= it@.categories);
        assert(r@.thumbnail == it@.thumbnail);
    }
    r
}

/// Copies a subscription.
pub fn clone_subscription(s: &Subscription) -> (r: Subscription)
    ensures
        r@ == s@,
{
    let r = Subscription {
        id: s.id,
        keyword: clone_bytes(&s.keyword),
        owner_id: s.owner_id,
        delivery_target: s.delivery_target,
        categories: clone_byte_list(&s.categories),
    };
    assert(r@ == s@) by {
        assert(r@.categories =~~= s@.categories);
    }
    r
}

} // verus!
