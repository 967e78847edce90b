//! The item store: an in-memory reference implementation of the storage
//! contract the pipeline relies on.
//!
//! It offers an idempotent upsert keyed by the external identifier, an
//! exclusive non-blocking claim of unprocessed rows, and the committed
//! transition that marks claimed rows notified while appending audit
//! entries. Any storage engine with atomic row claiming satisfies the same
//! contract; this one makes the contract checkable.

use vstd::prelude::*;
use crate::model::{FeedItem, FeedItemView, ItemDraft, ItemDraftView, Subscription, SubscriptionView, clone_item, bytes_eq, clone_bytes};

verus! {

/// A stored row: the item and its transient claim mark. The claim mark
/// models the exclusive row lock a worker holds for the span of one pass.
#[derive(Debug)]
pub struct StoredRow {
    pub item: FeedItem,
    pub claimed: bool,
}

/// The mathematical value of a `StoredRow`.
pub struct StoredRowView {
    pub item: FeedItemView,
    pub claimed: bool,
}

impl View for StoredRow {
    type V = StoredRowView;

    open spec fn view(&self) -> StoredRowView {
        StoredRowView { item: self.item@, claimed: self.claimed }
    }
}

impl DeepView for StoredRow {
    type V = StoredRowView;

    open spec fn deep_view(&self) -> StoredRowView {
        self@
    }
}

/// An immutable record of one delivered notification batch: which item, to
/// which delivery target, on which subscriptions, and when.
#[derive(Debug)]
pub struct AuditEntry {
    pub item_id: u64,
    pub external_id: Vec<u8>,
    pub delivery_target: u64,
    /// Snapshots of the matched subscriptions, in evaluation order.
    pub matched_subscriptions: Vec<Subscription>,
    pub delivered_at: i64,
}

/// The mathematical value of an `AuditEntry`.
pub struct AuditEntryView {
    pub item_id: u64,
    pub external_id: Seq<u8>,
    pub delivery_target: u64,
    pub matched_subscriptions: Seq<SubscriptionView>,
    pub delivered_at: i64,
}

impl View for AuditEntry {
    type V = AuditEntryView;

    open spec fn view(&self) -> AuditEntryView {
        AuditEntryView {
            item_id: self.item_id,
            external_id: self.external_id@,
            delivery_target: self.delivery_target,
            matched_subscriptions: self.matched_subscriptions.deep_view(),
            delivered_at: self.delivered_at,
        }
    }
}

impl DeepView for AuditEntry {
    type V = AuditEntryView;

    open spec fn deep_view(&self) -> AuditEntryView {
        self@
    }
}

/// The item store: rows, the next fresh key, and the audit log.
#[derive(Debug)]
pub struct ItemStore {
    pub rows: Vec<StoredRow>,
    pub next_id: u64,
    pub audit: Vec<AuditEntry>,
}

/// The mathematical value of an `ItemStore`.
pub struct ItemStoreView {
    pub rows: Seq<StoredRowView>,
    pub next_id: u64,
    pub audit: Seq<AuditEntryView>,
}

impl View for ItemStore {
    type V = ItemStoreView;

    open spec fn view(&self) -> ItemStoreView {
        ItemStoreView {
            rows: self.rows.deep_view(),
            next_id: self.next_id,
            audit: self.audit.deep_view(),
        }
    }
}

/// Well-formedness of the row set: external identifiers are unique, internal
/// keys are unique, and every key is below the next fresh key.
pub open spec fn wf_rows(rows: Seq<StoredRowView>, next_id: u64) -> bool {
    &&& forall|i: int, j: int|
        0 <= i < j < rows.len() ==> rows[i].item.external_id != rows[j].item.external_id
    &&& forall|i: int, j: int| 0 <= i < j < rows.len() ==> rows[i].item.id != rows[j].item.id
    &&& forall|i: int| 0 <= i < rows.len() ==> rows[i].item.id < next_id
}

impl ItemStore {
    /// The store's invariant.
    pub open spec fn wf(&self) -> bool {
        wf_rows(self@.rows, self.next_id)
    }
}

/// The least index whose row carries `eid`, searching from `i`; `-1` when
/// there is none.
pub open spec fn find_eid_from(rows: Seq<StoredRowView>, eid: Seq<u8>, i: int) -> int
    decreases rows.len() - i
    when 0 <= i <= rows.len()
{
    if i >= rows.len() {
        -1
    } else if rows[i].item.external_id == eid {
        i
    } else {
        find_eid_from(rows, eid, i + 1)
    }
}

pub proof fn lemma_find_eid_char(rows: Seq<StoredRowView>, eid: Seq<u8>, i: int)
    requires
        0 <= i <= rows.len(),
    ensures
        find_eid_from(rows, eid, i) == -1 ==> forall|k: int|
            i <= k < rows.len() ==> rows[k].item.external_id != eid,
        find_eid_from(rows, eid, i) != -1 ==> i <= find_eid_from(rows, eid, i) < rows.len()
            && rows[find_eid_from(rows, eid, i)].item.external_id == eid,
    decreases rows.len() - i,
{
    if i < rows.len() && rows[i].item.external_id != eid {
        lemma_find_eid_char(rows, eid, i + 1);
    }
}

/// The row that an update leaves behind: the draft's mutable fields, with
/// key, external identifier, link, publication time, notified flag and claim
/// mark untouched.
pub open spec fn updated_row(row: StoredRowView, d: ItemDraftView) -> StoredRowView {
    StoredRowView {
        item: FeedItemView {
            id: row.item.id,
            external_id: row.item.external_id,
            title: d.title,
            description_raw: d.description_raw,
            link: row.item.link,
            thumbnail: d.thumbnail,
            categories: d.categories,
            published_at: row.item.published_at,
            notified: row.item.notified,
        },
        claimed: row.claimed,
    }
}

/// The row that a first sighting inserts: unnotified and unclaimed.
pub open spec fn inserted_row(d: ItemDraftView, id: u64) -> StoredRowView {
    StoredRowView {
        item: FeedItemView {
            id: id,
            external_id: d.external_id,
            title: d.title,
            description_raw: d.description_raw,
            link: d.link,
            thumbnail: d.thumbnail,
            categories: d.categories,
            published_at: d.published_at,
            notified: false,
        },
        claimed: false,
    }
}

/// What upserting a draft does to the row set.
pub open spec fn rows_after_upsert(
    rows: Seq<StoredRowView>,
    d: ItemDraftView,
    next_id: u64,
) -> Seq<StoredRowView> {
    let k = find_eid_from(rows, d.external_id, 0);
    if k >= 0 {
        rows.update(k, updated_row(rows[k], d))
    } else {
        rows.push(inserted_row(d, next_id))
    }
}

impl ItemStore {
    /// An empty store.
    pub fn new() -> (r: ItemStore)
        ensures
            r.wf(),
            r@.rows.len() == 0,
            r@.audit.len() == 0,
            r.next_id == 0,
    {
        let r = ItemStore { rows: Vec::new(), next_id: 0, audit: Vec::new() };
        assert(r@.rows =~= Seq::<StoredRowView>::empty());
        assert(r@.audit =~= Seq::<AuditEntryView>::empty());
        r
    }

    /// Inserts the draft as a new row when its external identifier is
    /// unseen; otherwise updates the existing row's mutable fields, leaving
    /// its key and notified flag untouched. Returns the row's key. Never
    /// creates a second row for an external identifier.
    pub fn upsert(&mut self, d: ItemDraft) -> (id: u64)
        requires
            old(self).wf(),
            old(self).next_id < u64::MAX,
        ensures
            final(self).wf(),
            final(self)@.rows == rows_after_upsert(old(self)@.rows, d@, old(self).next_id),
            final(self)@.audit == old(self)@.audit,
            ({
                let k = find_eid_from(old(self)@.rows, d@.external_id, 0);
                if k >= 0 {
                    id == old(self)@.rows[k].item.id && final(self).next_id == old(self).next_id
                } else {
                    id == old(self).next_id && final(self).next_id == old(self).next_id + 1
                }
            }),
    {
        let ghost rows0 = self@.rows;
        let ghost dv = d@;
        proof {
            lemma_find_eid_char(rows0, dv.external_id, 0);
        }
        let mut i: usize = 0;
        let n = self.rows.len();
        while i < n
            invariant
                n == self.rows.len(),
                rows0 == self@.rows,
                rows0 == old(self)@.rows,
                self.next_id == old(self).next_id,
                self@.audit == old(self)@.audit,
                wf_rows(rows0, self.next_id),
                self.next_id < u64::MAX,
                dv == d@,
                0 <= i <= rows0.len(),
                find_eid_from(rows0, dv.external_id, 0) == find_eid_from(
                    rows0,
                    dv.external_id,
                    i as int,
                ),
            decreases n - i,
        {
            if bytes_eq(&self.rows[i].item.external_id, &d.external_id) {
                assert(find_eid_from(rows0, dv.external_id, i as int) == i);
                let id = self.rows[i].item.id;
                let upd = FeedItem {
                    id: id,
                    external_id: d.external_id,
                    title: d.title,
                    description_raw: d.description_raw,
                    link: clone_bytes(&self.rows[i].item.link),
                    thumbnail: d.thumbnail,
                    categories: d.categories,
                    published_at: self.rows[i].item.published_at,
                    notified: self.rows[i].item.notified,
                };
                self.rows[i].item = upd;
                proof {
                    assert(upd@ == updated_row(rows0[i as int], dv).item);
                    assert(self@.rows =~~= rows_after_upsert(rows0, dv, old(self).next_id));
                    assert(forall|k: int|
                        0 <= k < self@.rows.len() ==> self@.rows[k].item.id == rows0[k].item.id
                            && self@.rows[k].item.external_id == rows0[k].item.external_id);
                    assert(wf_rows(self@.rows, self.next_id));
                }
                return id;
            }
            assert(find_eid_from(rows0, dv.external_id, i as int) == find_eid_from(
                rows0,
                dv.external_id,
                i + 1,
            ));
            i = i + 1;
        }
        assert(find_eid_from(rows0, dv.external_id, 0) == -1);
        let id = self.next_id;
        let fresh = FeedItem {
            id: id,
            external_id: d.external_id,
            title: d.title,
            description_raw: d.description_raw,
            link: d.link,
            thumbnail: d.thumbnail,
            categories: d.categories,
            published_at: d.published_at,
            notified: false,
        };
        self.rows.push(StoredRow { item: fresh, claimed: false });
        self.next_id = self.next_id + 1;
        proof {
            assert(fresh@ == inserted_row(dv, old(self).next_id).item);
            assert(self@.rows =~~= rows_after_upsert(rows0, dv, old(self).next_id));
            assert(forall|k: int| 0 <= k < rows0.len() ==> self@.rows[k] == rows0[k]);
            assert(self@.rows[rows0.len() as int].item.id == old(self).next_id);
            assert(self@.rows[rows0.len() as int].item.external_id == dv.external_id);
            assert(forall|k: int|
                0 <= k < rows0.len() ==> rows0[k].item.external_id != dv.external_id);
            assert(wf_rows(self@.rows, self.next_id));
        }
        id
    }
}

/// A row is eligible for claiming when it is neither notified nor already
/// claimed by a worker in flight.
pub open spec fn eligible(row: StoredRowView) -> bool {
    !row.item.notified && !row.claimed
}

/// The indices a claim of up to `limit` rows picks: the first eligible rows
/// in row order.
pub open spec fn claim_picks(rows: Seq<StoredRowView>, limit: nat) -> Seq<int>
    decreases rows.len(),
{
    if rows.len() == 0 {
        seq![]
    } else {
        let p = claim_picks(rows.drop_last(), limit);
        if p.len() < limit && eligible(rows.last()) {
            p.push(rows.len() - 1)
        } else {
            p
        }
    }
}

/// The same row, marked claimed.
pub open spec fn claimed_mark(row: StoredRowView) -> StoredRowView {
    StoredRowView { item: row.item, claimed: true }
}

/// What claiming does to the row set: the picked rows are marked claimed,
/// every other row is untouched.
pub open spec fn rows_after_claim(rows: Seq<StoredRowView>, limit: nat) -> Seq<StoredRowView> {
    Seq::new(
        rows.len(),
        |i: int|
            if claim_picks(rows, limit).contains(i) {
                claimed_mark(rows[i])
            } else {
                rows[i]
            },
    )
}

/// The picked indices are at most `limit` many, strictly increasing, in
/// range, eligible; and when an eligible row is left unpicked, the claim was
/// full.
pub proof fn lemma_claim_picks_props(rows: Seq<StoredRowView>, limit: nat)
    ensures
        claim_picks(rows, limit).len() <= limit,
        forall|k: int|
            0 <= k < claim_picks(rows, limit).len() ==> 0 <= #[trigger] claim_picks(rows, limit)[k]
                < rows.len() && eligible(rows[claim_picks(rows, limit)[k]]),
        forall|k1: int, k2: int|
            0 <= k1 < k2 < claim_picks(rows, limit).len() ==> claim_picks(rows, limit)[k1]
                < claim_picks(rows, limit)[k2],
        forall|i: int|
            0 <= i < rows.len() && eligible(rows[i]) && !claim_picks(rows, limit).contains(i)
                ==> claim_picks(rows, limit).len() == limit,
    decreases rows.len(),
{
    if rows.len() > 0 {
        lemma_claim_picks_props(rows.drop_last(), limit);
        let p = claim_picks(rows.drop_last(), limit);
        let q = claim_picks(rows, limit);
        assert forall|i: int|
            0 <= i < rows.len() && eligible(rows[i]) && !q.contains(i) implies q.len()
            == limit by {
            if i < rows.len() - 1 {
                assert(rows.drop_last()[i] == rows[i]);
                assert(!p.contains(i)) by {
                    if p.contains(i) {
                        let k = choose|k: int| 0 <= k < p.len() && p[k] == i;
                        assert(q[k] == i);
                    }
                }
            } else {
                if p.len() < limit {
                    assert(q == p.push(rows.len() - 1));
                    assert(q[p.len() as int] == rows.len() - 1);
                    assert(q.contains(i));
                }
                assert(p.len() == limit);
            }
        }
    }
}

/// The same row, marked notified, with its claim released.
pub open spec fn notified_mark(row: StoredRowView) -> StoredRowView {
    StoredRowView {
        item: FeedItemView {
            id: row.item.id,
            external_id: row.item.external_id,
            title: row.item.title,
            description_raw: row.item.description_raw,
            link: row.item.link,
            thumbnail: row.item.thumbnail,
            categories: row.item.categories,
            published_at: row.item.published_at,
            notified: true,
        },
        claimed: false,
    }
}

/// What committing a pass does to the row set: every row whose key is in
/// `ids` becomes notified and loses its claim mark.
pub open spec fn rows_after_mark(rows: Seq<StoredRowView>, ids: Seq<u64>) -> Seq<StoredRowView> {
    Seq::new(
        rows.len(),
        |i: int|
            if ids.contains(rows[i].item.id) {
                notified_mark(rows[i])
            } else {
                rows[i]
            },
    )
}

/// The same row with its claim released; the notified flag keeps its value.
pub open spec fn released_mark(row: StoredRowView) -> StoredRowView {
    StoredRowView { item: row.item, claimed: false }
}

/// What rolling a pass back does to the row set: every row whose key is in
/// `ids` loses its claim mark and nothing else changes.
pub open spec fn rows_after_release(rows: Seq<StoredRowView>, ids: Seq<u64>) -> Seq<
    StoredRowView,
> {
    Seq::new(
        rows.len(),
        |i: int|
            if ids.contains(rows[i].item.id) {
                released_mark(rows[i])
            } else {
                rows[i]
            },
    )
}

/// Whether `ids` holds `x`.
pub fn ids_contain(ids: &Vec<u64>, x: u64) -> (r: bool)
    ensures
        r == ids@.contains(x),
{
    let mut i: usize = 0;
    while i < ids.len()
        invariant
            0 <= i <= ids@.len(),
            forall|k: int| 0 <= k < i ==> ids@[k] != x,
        decreases ids@.len() - i,
    {
        if ids[i] == x {
            assert(ids@.contains(x));
            return true;
        }
        i = i + 1;
    }
    assert(!ids@.contains(x)) by {
        if ids@.contains(x) {
            let k = choose|k: int| 0 <= k < ids@.len() && ids@[k] == x;
        }
    }
    false
}

impl ItemStore {
    /// Claims up to `limit` unprocessed rows: the first rows in row order
    /// that are neither notified nor claimed are marked claimed, exclusively
    /// and without waiting on rows other workers hold, and snapshots of
    /// their items are returned.
    #[verifier::rlimit(50)]
    pub fn claim_unprocessed(&mut self, limit: usize) -> (r: Vec<FeedItem>)
        requires
            old(self).wf(),
        ensures
            final(self).wf(),
            final(self)@.rows == rows_after_claim(old(self)@.rows, limit as nat),
            final(self)@.audit == old(self)@.audit,
            final(self).next_id == old(self).next_id,
            r@.len() == claim_picks(old(self)@.rows, limit as nat).len(),
            forall|k: int|
                0 <= k < r@.len() ==> r@[k]@ == old(self)@.rows[claim_picks(
                    old(self)@.rows,
                    limit as nat,
                )[k]].item,
    {
        let ghost rows0 = self@.rows;
        let ghost lim = limit as nat;
        let mut out: Vec<FeedItem> = Vec::new();
        let mut idx: Vec<usize> = Vec::new();
        let mut i: usize = 0;
        let n = self.rows.len();
        while i < n
            invariant
                n == self.rows.len(),
                rows0 == self@.rows,
                rows0 == old(self)@.rows,
                self.next_id == old(self).next_id,
                self@.audit == old(self)@.audit,
                wf_rows(rows0, self.next_id),
                lim == limit as nat,
                0 <= i <= n,
                idx@.len() == claim_picks(rows0.take(i as int), lim).len(),
                forall|k: int|
                    0 <= k < idx@.len() ==> idx@[k] == claim_picks(rows0.take(i as int), lim)[k],
                out@.len() == idx@.len(),
                forall|k: int|
                    0 <= k < idx@.len() ==> 0 <= idx@[k] < n && #[trigger] out@[k]@ == rows0[idx@[k]
                        as int].item,
                idx@.len() <= limit,
            decreases n - i,
        {
            let row_notified = self.rows[i].item.notified;
            let row_claimed = self.rows[i].claimed;
            let want = idx.len() < limit && !row_notified && !row_claimed;
            proof {
                assert(rows0[i as int] == self.rows@[i as int]@);
                assert(rows0[i as int].item.notified == row_notified);
                assert(rows0[i as int].claimed == row_claimed);
                assert(rows0.take(i + 1).drop_last() =~= rows0.take(i as int));
                assert(rows0.take(i + 1).last() == rows0[i as int]);
                assert(rows0.take(i + 1).len() == i + 1);
                assert(want == (idx@.len() < lim && eligible(rows0[i as int])));
                if want {
                    assert(claim_picks(rows0.take(i + 1), lim) == claim_picks(
                        rows0.take(i as int),
                        lim,
                    ).push(i as int));
                } else {
                    assert(claim_picks(rows0.take(i + 1), lim) == claim_picks(
                        rows0.take(i as int),
                        lim,
                    ));
                }
            }
            if want {
                let snap = clone_item(&self.rows[i].item);
                idx.push(i);
                out.push(snap);
            }
            i = i + 1;
        }
        assert(rows0.take(n as int) =~= rows0);
        let ghost picks = claim_picks(rows0, lim);
        proof {
            lemma_claim_picks_props(rows0, lim);
        }
        let mut m: usize = 0;
        let nn = idx.len();
        while m < nn
            invariant
                nn == idx.len(),
                idx@.len() == picks.len(),
                forall|k: int| 0 <= k < idx@.len() ==> idx@[k] == picks[k],
                picks == claim_picks(rows0, lim),
                lim == limit as nat,
                rows0 == old(self)@.rows,
                self.next_id == old(self).next_id,
                self@.audit == old(self)@.audit,
                wf_rows(rows0, self.next_id),
                self.rows.len() == rows0.len(),
                0 <= m <= idx@.len(),
                forall|k: int|
                    0 <= k < picks.len() ==> 0 <= #[trigger] picks[k] < rows0.len() && eligible(
                        rows0[picks[k]],
                    ),
                forall|k1: int, k2: int|
                    0 <= k1 < k2 < picks.len() ==> picks[k1] < picks[k2],
                forall|j: int|
                    0 <= j < rows0.len() ==> self@.rows[j] == (if picks.take(m as int).contains(j) {
                        claimed_mark(rows0[j])
                    } else {
                        rows0[j]
                    }),
            decreases nn - m,
        {
            let j = idx[m];
            proof {
                assert(picks[m as int] == j);
                assert(0 <= j < rows0.len());
                assert(!picks.take(m as int).contains(j as int)) by {
                    if picks.take(m as int).contains(j as int) {
                        let k = choose|k: int|
                            0 <= k < m && #[trigger] picks.take(m as int)[k] == j as int;
                        assert(picks[k] == j as int && k < m as int);
                    }
                }
                assert(self@.rows[j as int] == rows0[j as int]);
            }
            let ghost pre = self@.rows;
            self.rows[j].claimed = true;
            proof {
                assert(picks.take(m + 1).drop_last() =~= picks.take(m as int));
                assert(picks.take(m + 1).last() == picks[m as int]);
                assert(picks.take(m + 1).contains(j as int)) by {
                    assert(picks.take(m + 1)[m as int] == j as int);
                }
                assert(forall|jj: int|
                    0 <= jj < rows0.len() && jj != j ==> self@.rows[jj] == pre[jj]);
                assert(self@.rows[j as int].item == pre[j as int].item);
                assert(self@.rows[j as int].claimed == true);
                assert(self@.rows[j as int] == claimed_mark(rows0[j as int]));
                assert forall|jj: int| 0 <= jj < rows0.len() implies self@.rows[jj] == (if picks
                    .take(m + 1).contains(jj) {
                    claimed_mark(rows0[jj])
                } else {
                    rows0[jj]
                }) by {
                    if picks.take(m + 1).contains(jj) {
                        let k = choose|k: int| 0 <= k < m + 1 && #[trigger] picks.take(m + 1)[k] == jj;
                        if k < m {
                            assert(picks.take(m as int)[k] == jj);
                            assert(picks.take(m as int).contains(jj));
                            assert(pre[jj] == claimed_mark(rows0[jj]));
                        }
                    } else {
                        assert(!picks.take(m as int).contains(jj)) by {
                            if picks.take(m as int).contains(jj) {
                                let k = choose|k: int|
                                    0 <= k < m && #[trigger] picks.take(m as int)[k] == jj;
                                assert(picks.take(m + 1)[k] == jj);
                            }
                        }
                        assert(jj != j as int);
                        assert(pre[jj] == rows0[jj]);
                    }
                }
            }
            m = m + 1;
        }
        proof {
            assert(picks.take(picks.len() as int) =~= picks);
            assert(self@.rows =~~= rows_after_claim(rows0, lim));
            assert(forall|k: int|
                0 <= k < self@.rows.len() ==> self@.rows[k].item.id == rows0[k].item.id
                    && self@.rows[k].item.external_id == rows0[k].item.external_id);
            assert(wf_rows(self@.rows, self.next_id));
        }
        out
    }

    /// Marks every row whose key is in `ids` notified and releases its
    /// claim; part of the same committed transition that records the pass's
    /// audit entries. Rows with other keys are untouched.
    pub fn mark_notified(&mut self, ids: &Vec<u64>)
        requires
            old(self).wf(),
        ensures
            final(self).wf(),
            final(self)@.rows == rows_after_mark(old(self)@.rows, ids@),
            final(self)@.audit == old(self)@.audit,
            final(self).next_id == old(self).next_id,
    {
        let ghost rows0 = self@.rows;
        let mut i: usize = 0;
        let n = self.rows.len();
        while i < n
            invariant
                n == self.rows.len(),
                self.rows.len() == rows0.len(),
                rows0 == old(self)@.rows,
                self.next_id == old(self).next_id,
                self@.audit == old(self)@.audit,
                wf_rows(rows0, self.next_id),
                0 <= i <= n,
                forall|j: int| i <= j < rows0.len() ==> self@.rows[j] == rows0[j],
                forall|j: int|
                    0 <= j < i ==> self@.rows[j] == (if ids@.contains(rows0[j].item.id) {
                        notified_mark(rows0[j])
                    } else {
                        rows0[j]
                    }),
            decreases n - i,
        {
            proof {
                assert(self@.rows[i as int] == rows0[i as int]);
            }
            let ghost pre = self@.rows;
            let hit = ids_contain(ids, self.rows[i].item.id);
            proof {
                assert(hit == ids@.contains(rows0[i as int].item.id));
            }
            if hit {
                self.rows[i].item.notified = true;
                self.rows[i].claimed = false;
                proof {
                    assert(self@.rows[i as int].item =~~= notified_mark(rows0[i as int]).item);
                    assert(self@.rows[i as int] == notified_mark(rows0[i as int]));
                }
            }
            proof {
                assert forall|j: int| 0 <= j < i + 1 implies self@.rows[j] == (if ids@.contains(
                    rows0[j].item.id,
                ) {
                    notified_mark(rows0[j])
                } else {
                    rows0[j]
                }) by {
                    if j < i {
                        assert(self@.rows[j] == pre[j]);
                        assert(pre[j] == (if ids@.contains(rows0[j].item.id) {
                            notified_mark(rows0[j])
                        } else {
                            rows0[j]
                        }));
                    }
                }
            }
            i = i + 1;
        }
        proof {
            assert(self@.rows =~~= rows_after_mark(rows0, ids@));
            assert(forall|k: int|
                0 <= k < self@.rows.len() ==> self@.rows[k].item.id == rows0[k].item.id
                    && self@.rows[k].item.external_id == rows0[k].item.external_id);
            assert(wf_rows(self@.rows, self.next_id));
        }
    }

    /// Releases the claims on every row whose key is in `ids`, leaving the
    /// notified flags as they are: the rollback of a pass that failed before
    /// committing. The rows stay eligible for the next pass.
    pub fn release_claims(&mut self, ids: &Vec<u64>)
        requires
            old(self).wf(),
        ensures
            final(self).wf(),
            final(self)@.rows == rows_after_release(old(self)@.rows, ids@),
            final(self)@.audit == old(self)@.audit,
            final(self).next_id == old(self).next_id,
    {
        let ghost rows0 = self@.rows;
        let mut i: usize = 0;
        let n = self.rows.len();
        while i < n
            invariant
                n == self.rows.len(),
                self.rows.len() == rows0.len(),
                rows0 == old(self)@.rows,
                self.next_id == old(self).next_id,
                self@.audit == old(self)@.audit,
                wf_rows(rows0, self.next_id),
                0 <= i <= n,
                forall|j: int| i <= j < rows0.len() ==> self@.rows[j] == rows0[j],
                forall|j: int|
                    0 <= j < i ==> self@.rows[j] == (if ids@.contains(rows0[j].item.id) {
                        released_mark(rows0[j])
                    } else {
                        rows0[j]
                    }),
            decreases n - i,
        {
            proof {
                assert(self@.rows[i as int] == rows0[i as int]);
            }
            let ghost pre = self@.rows;
            let hit = ids_contain(ids, self.rows[i].item.id);
            proof {
                assert(hit == ids@.contains(rows0[i as int].item.id));
            }
            if hit {
                self.rows[i].claimed = false;
                proof {
                    assert(self@.rows[i as int] == released_mark(rows0[i as int]));
                }
            }
            proof {
                assert forall|j: int| 0 <= j < i + 1 implies self@.rows[j] == (if ids@.contains(
                    rows0[j].item.id,
                ) {
                    released_mark(rows0[j])
                } else {
                    rows0[j]
                }) by {
                    if j < i {
                        assert(self@.rows[j] == pre[j]);
                        assert(pre[j] == (if ids@.contains(rows0[j].item.id) {
                            released_mark(rows0[j])
                        } else {
                            rows0[j]
                        }));
                    }
                }
            }
            i = i + 1;
        }
        proof {
            assert(self@.rows =~~= rows_after_release(rows0, ids@));
            assert(forall|k: int|
                0 <= k < self@.rows.len() ==> self@.rows[k].item.id == rows0[k].item.id
                    && self@.rows[k].item.external_id == rows0[k].item.external_id);
            assert(wf_rows(self@.rows, self.next_id));
        }
    }

    /// Commits one worker pass as a single transition, the transactional
    /// boundary of the trigger worker: every claimed row whose key is in
    /// `ids` becomes notified with its claim released, and the pass's audit
    /// entries are appended to the audit log. Nothing else changes; there is
    /// no partial commit of one without the other.
    pub fn commit_pass(&mut self, ids: &Vec<u64>, entries: Vec<AuditEntry>)
        requires
            old(self).wf(),
        ensures
            final(self).wf(),
            final(self)@.rows == rows_after_mark(old(self)@.rows, ids@),
            final(self)@.audit == old(self)@.audit + entries.deep_view(),
            final(self).next_id == old(self).next_id,
    {
        self.mark_notified(ids);
        let mut es = entries;
        self.audit.append(&mut es);
        proof {
            assert(self@.audit =~~= old(self)@.audit + entries.deep_view());
        }
    }

    /// How many rows the store holds.
    pub fn row_count(&self) -> (r: usize)
        ensures
            r == self@.rows.len(),
    {
        self.rows.len()
    }

    /// A snapshot of the row whose external identifier is `eid`, when the
    /// store holds one.
    pub fn find_by_external_id(&self, eid: &Vec<u8>) -> (r: Option<FeedItem>)
        ensures
            ({
                let k = find_eid_from(self@.rows, eid@, 0);
                match r {
                    Some(it) => k >= 0 && it@ == self@.rows[k].item,
                    None => k == -1,
                }
            }),
    {
        let ghost rows0 = self@.rows;
        let mut i: usize = 0;
        let n = self.rows.len();
        while i < n
            invariant
                n == self.rows.len(),
                rows0 == self@.rows,
                0 <= i <= n,
                find_eid_from(rows0, eid@, 0) == find_eid_from(rows0, eid@, i as int),
            decreases n - i,
        {
            if bytes_eq(&self.rows[i].item.external_id, eid) {
                assert(find_eid_from(rows0, eid@, i as int) == i);
                return Some(clone_item(&self.rows[i].item));
            }
            assert(find_eid_from(rows0, eid@, i as int) == find_eid_from(rows0, eid@, i + 1));
            i = i + 1;
        }
        assert(find_eid_from(rows0, eid@, i as int) == -1);
        None
    }
}

/// Law (no double claim): two claims against the same store, one completing
/// before the other begins, pick disjoint rows, and with unique keys they
/// return items with disjoint keys: concurrent workers partition the
/// unprocessed set and never process the same item twice.
pub proof fn lemma_no_double_claim(rows: Seq<StoredRowView>, next_id: u64, l1: nat, l2: nat)
    requires
        wf_rows(rows, next_id),
    ensures
        forall|a: int, b: int|
            0 <= a < claim_picks(rows, l1).len() && 0 <= b < claim_picks(
                rows_after_claim(rows, l1),
                l2,
            ).len() ==> #[trigger] claim_picks(rows, l1)[a] != #[trigger] claim_picks(
                rows_after_claim(rows, l1),
                l2,
            )[b],
        forall|a: int, b: int|
            0 <= a < claim_picks(rows, l1).len() && 0 <= b < claim_picks(
                rows_after_claim(rows, l1),
                l2,
            ).len() ==> rows[#[trigger] claim_picks(rows, l1)[a]].item.id != rows_after_claim(
                rows,
                l1,
            )[#[trigger] claim_picks(rows_after_claim(rows, l1), l2)[b]].item.id,
{
    let p1 = claim_picks(rows, l1);
    let rows1 = rows_after_claim(rows, l1);
    let p2 = claim_picks(rows1, l2);
    lemma_claim_picks_props(rows, l1);
    lemma_claim_picks_props(rows1, l2);
    assert(rows1.len() == rows.len());
    assert forall|a: int, b: int|
        0 <= a < p1.len() && 0 <= b < p2.len() implies p1[a] != p2[b] && rows[p1[a]].item.id
        != rows1[p2[b]].item.id by {
        let i = p1[a];
        let j = p2[b];
        assert(p1.contains(i));
        assert(rows1[i] == claimed_mark(rows[i]));
        assert(rows1[i].claimed);
        assert(eligible(rows1[j]));
        assert(i != j);
        assert(rows1[j].item == rows[j].item || rows1[j].item == claimed_mark(rows[j]).item);
        assert(rows1[j].item.id == rows[j].item.id);
        assert(rows[i].item.id != rows[j].item.id);
    }
}

/// Law (at most once): a row that is already notified is picked by no claim,
/// and claiming leaves it untouched. Since a worker marks only the rows of
/// its own claim, and claims are disjoint, each item is marked notified at
/// most once over any number of worker passes.
pub proof fn lemma_notified_never_reclaimed(rows: Seq<StoredRowView>, limit: nat, i: int)
    requires
        0 <= i < rows.len(),
        rows[i].item.notified,
    ensures
        !claim_picks(rows, limit).contains(i),
        rows_after_claim(rows, limit)[i] == rows[i],
{
    lemma_claim_picks_props(rows, limit);
    let p = claim_picks(rows, limit);
    if p.contains(i) {
        let k = choose|k: int| 0 <= k < p.len() && p[k] == i;
        assert(eligible(rows[p[k]]));
    }
}

/// Law: the notified flag is monotone: no store transition (claim, mark,
/// release, or a repeated upsert of the same external identifier) resets it.
/// Re-ingesting an already-notified item therefore never re-triggers a
/// notification.
pub proof fn lemma_notified_monotone(
    rows: Seq<StoredRowView>,
    limit: nat,
    ids: Seq<u64>,
    d: ItemDraftView,
    next_id: u64,
    i: int,
)
    requires
        0 <= i < rows.len(),
        rows[i].item.notified,
    ensures
        rows_after_claim(rows, limit)[i].item.notified,
        rows_after_mark(rows, ids)[i].item.notified,
        rows_after_release(rows, ids)[i].item.notified,
        rows_after_upsert(rows, d, next_id)[i].item.notified,
{
    lemma_find_eid_char(rows, d.external_id, 0);
    let k = find_eid_from(rows, d.external_id, 0);
    if k >= 0 {
        if k == i {
            assert(rows_after_upsert(rows, d, next_id)[i] == updated_row(rows[i], d));
        } else {
            assert(rows_after_upsert(rows, d, next_id)[i] == rows[i]);
        }
    } else {
        assert(rows_after_upsert(rows, d, next_id)[i] == rows[i]);
    }
}

/// Upserting preserves well-formedness, with the fresh-key bound advanced.
pub proof fn lemma_upsert_wf(rows: Seq<StoredRowView>, d: ItemDraftView, next_id: u64)
    requires
        wf_rows(rows, next_id),
        next_id < u64::MAX,
    ensures
        wf_rows(rows_after_upsert(rows, d, next_id), (next_id + 1) as u64),
{
    lemma_find_eid_char(rows, d.external_id, 0);
    let k = find_eid_from(rows, d.external_id, 0);
    let rows1 = rows_after_upsert(rows, d, next_id);
    if k >= 0 {
        assert(forall|j: int|
            0 <= j < rows1.len() ==> rows1[j].item.id == rows[j].item.id
                && rows1[j].item.external_id == rows[j].item.external_id);
    } else {
        assert(forall|j: int| 0 <= j < rows.len() ==> rows1[j] == rows[j]);
        assert(rows1[rows.len() as int].item.id == next_id);
        assert(rows1[rows.len() as int].item.external_id == d.external_id);
    }
}

/// Law (idempotent ingestion): upserting the same external identifier twice
/// leaves exactly one row carrying it, whatever the two drafts' other fields
/// are. That row holds the second draft's mutable fields, the latest title
/// among them, and its notified flag is what it was before the second upsert:
/// present rows keep their flag, a first sighting starts unnotified.
pub proof fn lemma_upsert_idempotent(
    rows: Seq<StoredRowView>,
    next_id: u64,
    n2: u64,
    d1: ItemDraftView,
    d2: ItemDraftView,
)
    requires
        wf_rows(rows, next_id),
        next_id < u64::MAX,
        d1.external_id == d2.external_id,
    ensures
        ({
            let rows1 = rows_after_upsert(rows, d1, next_id);
            let rows2 = rows_after_upsert(rows1, d2, n2);
            let k = find_eid_from(rows1, d2.external_id, 0);
            let k0 = find_eid_from(rows, d1.external_id, 0);
            &&& rows2.len() == rows1.len()
            &&& 0 <= k < rows2.len()
            &&& rows2[k] == updated_row(rows1[k], d2)
            &&& rows2[k].item.title == d2.title
            &&& rows2[k].item.external_id == d1.external_id
            &&& rows2[k].item.notified == (if k0 >= 0 {
                rows[k0].item.notified
            } else {
                false
            })
            &&& forall|j: int|
                0 <= j < rows2.len() && j != k ==> rows2[j].item.external_id != d2.external_id
        }),
{
    let rows1 = rows_after_upsert(rows, d1, next_id);
    let rows2 = rows_after_upsert(rows1, d2, n2);
    let k0 = find_eid_from(rows, d1.external_id, 0);
    lemma_find_eid_char(rows, d1.external_id, 0);
    lemma_upsert_wf(rows, d1, next_id);
    let k1: int = if k0 >= 0 {
        k0
    } else {
        rows.len() as int
    };
    assert(rows1[k1].item.external_id == d1.external_id);
    assert(rows1[k1].item.notified == (if k0 >= 0 {
        rows[k0].item.notified
    } else {
        false
    }));
    let k = find_eid_from(rows1, d2.external_id, 0);
    lemma_find_eid_char(rows1, d2.external_id, 0);
    assert(k != -1);
    assert(k == k1) by {
        if k != k1 {
            assert(rows1[k].item.external_id == rows1[k1].item.external_id);
        }
    }
    assert(rows2 == rows1.update(k, updated_row(rows1[k], d2)));
    assert forall|j: int|
        0 <= j < rows2.len() && j != k implies rows2[j].item.external_id
        != d2.external_id by {
        assert(rows2[j] == rows1[j]);
        assert(rows1[j].item.external_id != rows1[k].item.external_id);
    }
}

} // verus!
