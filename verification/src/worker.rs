//! The trigger worker: one pass claims a batch of unprocessed items, matches
//! them against every active subscription, groups the matches per item and
//! delivery target, commits the notified flags together with one audit entry
//! per group, and returns the notification batches for dispatch.
//!
//! Dispatch failures are the dispatcher's affair: an item that was claimed
//! and processed is committed notified whether or not its deliveries
//! succeeded, so a pass never delivers the same item twice.

use vstd::prelude::*;
use crate::match_engine::matches_view;
use crate::model::{
    clone_bytes, clone_bytes_opt, clone_byte_list, clone_subscription, FeedItem, FeedItemView,
    Subscription, SubscriptionView, opt_bytes_view,
};
use crate::store::{
    claim_picks, ids_contain, rows_after_claim, rows_after_mark, AuditEntry, AuditEntryView,
    ItemStore,
};

verus! {

/// The subscriptions among `subs` that match `item`, in evaluation order.
pub open spec fn matched_subs(item: FeedItemView, subs: Seq<SubscriptionView>) -> Seq<
    SubscriptionView,
>
    decreases subs.len(),
{
    if subs.len() == 0 {
        seq![]
    } else {
        let init = matched_subs(item, subs.drop_last());
        if matches_view(item, subs.last()) {
            init.push(subs.last())
        } else {
            init
        }
    }
}

/// `s` with every repeated element dropped; first occurrences stay, in
/// order.
pub open spec fn dedup_first<T>(s: Seq<T>) -> Seq<T>
    decreases s.len(),
{
    if s.len() == 0 {
        seq![]
    } else {
        let d = dedup_first(s.drop_last());
        if d.contains(s.last()) {
            d
        } else {
            d.push(s.last())
        }
    }
}

/// The matched subscriptions that deliver to `t`, in evaluation order.
pub open spec fn filter_target(subs: Seq<SubscriptionView>, t: u64) -> Seq<SubscriptionView>
    decreases subs.len(),
{
    if subs.len() == 0 {
        seq![]
    } else {
        let init = filter_target(subs.drop_last(), t);
        if subs.last().delivery_target == t {
            init.push(subs.last())
        } else {
            init
        }
    }
}

/// The delivery targets of `subs`, in order, one per subscription.
pub open spec fn targets_seq(subs: Seq<SubscriptionView>) -> Seq<u64>
    decreases subs.len(),
{
    if subs.len() == 0 {
        seq![]
    } else {
        targets_seq(subs.drop_last()).push(subs.last().delivery_target)
    }
}

/// The keywords of `subs`, in order, one per subscription.
pub open spec fn keywords_seq(subs: Seq<SubscriptionView>) -> Seq<Seq<u8>>
    decreases subs.len(),
{
    if subs.len() == 0 {
        seq![]
    } else {
        keywords_seq(subs.drop_last()).push(subs.last().keyword)
    }
}

/// The subscribers of `subs`, in order, one per subscription.
pub open spec fn owners_seq(subs: Seq<SubscriptionView>) -> Seq<u64>
    decreases subs.len(),
{
    if subs.len() == 0 {
        seq![]
    } else {
        owners_seq(subs.drop_last()).push(subs.last().owner_id)
    }
}

/// The delivery targets of `subs`, each once, in order of first appearance.
pub open spec fn targets_spec(subs: Seq<SubscriptionView>) -> Seq<u64> {
    dedup_first(targets_seq(subs))
}

/// One batched notification: everything the dispatcher needs to deliver one
/// item to one target, mentioning every matched subscriber once.
#[derive(Debug)]
pub struct NotificationBatch {
    pub item_id: u64,
    pub external_id: Vec<u8>,
    pub delivery_target: u64,
    pub title: Vec<u8>,
    pub link: Vec<u8>,
    pub thumbnail: Option<Vec<u8>>,
    pub categories: Vec<Vec<u8>>,
    /// The matched keywords, each once, in evaluation order.
    pub matched_keywords: Vec<Vec<u8>>,
    /// The subscribers to mention, each once, in evaluation order.
    pub mention_subjects: Vec<u64>,
}

/// The mathematical value of a `NotificationBatch`.
pub struct NotificationBatchView {
    pub item_id: u64,
    pub external_id: Seq<u8>,
    pub delivery_target: u64,
    pub title: Seq<u8>,
    pub link: Seq<u8>,
    pub thumbnail: Option<Seq<u8>>,
    pub categories: Seq<Seq<u8>>,
    pub matched_keywords: Seq<Seq<u8>>,
    pub mention_subjects: Seq<u64>,
}

impl View for NotificationBatch {
    type V = NotificationBatchView;

    open spec fn view(&self) -> NotificationBatchView {
        NotificationBatchView {
            item_id: self.item_id,
            external_id: self.external_id@,
            delivery_target: self.delivery_target,
            title: self.title@,
            link: self.link@,
            thumbnail: opt_bytes_view(self.thumbnail),
            categories: self.categories.deep_view(),
            matched_keywords: self.matched_keywords.deep_view(),
            mention_subjects: self.mention_subjects@,
        }
    }
}

impl DeepView for NotificationBatch {
    type V = NotificationBatchView;

    open spec fn deep_view(&self) -> NotificationBatchView {
        self.view()
    }
}

/// The batch delivered to `t` for `item`: the union of the matching
/// subscriptions' keywords and subscribers, deduplicated in evaluation
/// order.
pub open spec fn batch_for(item: FeedItemView, subs: Seq<SubscriptionView>, t: u64) -> NotificationBatchView {
    let group = filter_target(matched_subs(item, subs), t);
    NotificationBatchView {
        item_id: item.id,
        external_id: item.external_id,
        delivery_target: t,
        title: item.title,
        link: item.link,
        thumbnail: item.thumbnail,
        categories: item.categories,
        matched_keywords: dedup_first(keywords_seq(group)),
        mention_subjects: dedup_first(owners_seq(group)),
    }
}

/// The batches one item produces: one per delivery target with a matching
/// subscription, in order of first appearance.
pub open spec fn item_batches(item: FeedItemView, subs: Seq<SubscriptionView>) -> Seq<
    NotificationBatchView,
> {
    targets_spec(matched_subs(item, subs)).map_values(|t: u64| batch_for(item, subs, t))
}

/// The batches of a whole pass, item by item in claim order.
pub open spec fn pass_batches(items: Seq<FeedItemView>, subs: Seq<SubscriptionView>) -> Seq<
    NotificationBatchView,
>
    decreases items.len(),
{
    if items.len() == 0 {
        seq![]
    } else {
        pass_batches(items.drop_last(), subs) + item_batches(items.last(), subs)
    }
}

/// The audit entry recorded for one batch: which item went to which target
/// on which subscriptions, and when.
pub open spec fn audit_for(
    item: FeedItemView,
    subs: Seq<SubscriptionView>,
    t: u64,
    now: i64,
) -> AuditEntryView {
    AuditEntryView {
        item_id: item.id,
        external_id: item.external_id,
        delivery_target: t,
        matched_subscriptions: filter_target(matched_subs(item, subs), t),
        delivered_at: now,
    }
}

/// The audit entries one item produces, one per batch.
pub open spec fn item_audits(item: FeedItemView, subs: Seq<SubscriptionView>, now: i64) -> Seq<
    AuditEntryView,
> {
    targets_spec(matched_subs(item, subs)).map_values(|t: u64| audit_for(item, subs, t, now))
}

/// The audit entries of a whole pass.
pub open spec fn pass_audits(
    items: Seq<FeedItemView>,
    subs: Seq<SubscriptionView>,
    now: i64,
) -> Seq<AuditEntryView>
    decreases items.len(),
{
    if items.len() == 0 {
        seq![]
    } else {
        pass_audits(items.drop_last(), subs, now) + item_audits(items.last(), subs, now)
    }
}

/// The keys of a sequence of items, in order.
pub open spec fn ids_of(items: Seq<FeedItemView>) -> Seq<u64>
    decreases items.len(),
{
    if items.len() == 0 {
        seq![]
    } else {
        ids_of(items.drop_last()).push(items.last().id)
    }
}

/// The items of the rows a claim picks, in claim order.
pub open spec fn picked_items(rows: Seq<crate::store::StoredRowView>, limit: nat) -> Seq<
    FeedItemView,
> {
    claim_picks(rows, limit).map_values(|i: int| rows[i].item)
}

/// The subscriptions among `subs` that match `item`, as snapshots in
/// evaluation order.
pub fn matched_for(item: &FeedItem, subs: &Vec<Subscription>) -> (r: Vec<Subscription>)
    ensures
        r.deep_view() == matched_subs(item@, subs.deep_view()),
{
    let ghost sv = subs.deep_view();
    let mut r: Vec<Subscription> = Vec::new();
    let mut i: usize = 0;
    while i < subs.len()
        invariant
            sv == subs.deep_view(),
            sv.len() == subs@.len(),
            0 <= i <= subs@.len(),
            r.deep_view() == matched_subs(item@, sv.take(i as int)),
        decreases subs@.len() - i,
    {
        let ghost pre = r.deep_view();
        proof {
            assert(sv.take(i + 1).drop_last() =~= sv.take(i as int));
            assert(sv.take(i + 1).last() == sv[i as int]);
            assert(sv[i as int] == subs@[i as int]@);
        }
        if crate::match_engine::matches(item, &subs[i]) {
            r.push(clone_subscription(&subs[i]));
            assert(r.deep_view() =~~= pre.push(sv[i as int]));
        }
        i = i + 1;
    }
    assert(sv.take(subs@.len() as int) =~= sv);
    r
}

/// `s` with every repeated key dropped.
pub fn dedup_u64_exec(xs: &Vec<u64>) -> (r: Vec<u64>)
    ensures
        r@ == dedup_first(xs@),
{
    let mut r: Vec<u64> = Vec::new();
    let mut i: usize = 0;
    while i < xs.len()
        invariant
            0 <= i <= xs@.len(),
            r@ == dedup_first(xs@.take(i as int)),
        decreases xs@.len() - i,
    {
        proof {
            assert(xs@.take(i + 1).drop_last() =~= xs@.take(i as int));
            assert(xs@.take(i + 1).last() == xs@[i as int]);
        }
        if !ids_contain(&r, xs[i]) {
            r.push(xs[i]);
        }
        i = i + 1;
    }
    assert(xs@.take(xs@.len() as int) =~= xs@);
    r
}

/// Whether the list holds a vector with the same bytes as `x`.
pub fn list_contains_bytes(v: &Vec<Vec<u8>>, x: &Vec<u8>) -> (r: bool)
    ensures
        r == v.deep_view().contains(x@),
{
    let ghost dv = v.deep_view();
    let mut i: usize = 0;
    while i < v.len()
        invariant
            dv == v.deep_view(),
            dv.len() == v@.len(),
            0 <= i <= v@.len(),
            forall|k: int| 0 <= k < i ==> dv[k] != x@,
        decreases v@.len() - i,
    {
        proof {
            assert(dv[i as int] == v@[i as int]@);
        }
        if crate::model::bytes_eq(&v[i], x) {
            assert(dv.contains(x@)) by {
                assert(dv[i as int] == x@);
            }
            return true;
        }
        i = i + 1;
    }
    assert(!dv.contains(x@)) by {
        if dv.contains(x@) {
            let k = choose|k: int| 0 <= k < dv.len() && dv[k] == x@;
        }
    }
    false
}

/// `s` with every repeated byte vector dropped.
pub fn dedup_bytes_exec(xs: &Vec<Vec<u8>>) -> (r: Vec<Vec<u8>>)
    ensures
        r.deep_view() == dedup_first(xs.deep_view()),
{
    let ghost dv = xs.deep_view();
    let mut r: Vec<Vec<u8>> = Vec::new();
    let mut i: usize = 0;
    while i < xs.len()
        invariant
            dv == xs.deep_view(),
            dv.len() == xs@.len(),
            0 <= i <= xs@.len(),
            r.deep_view() == dedup_first(dv.take(i as int)),
        decreases xs@.len() - i,
    {
        let ghost pre = r.deep_view();
        proof {
            assert(dv.take(i + 1).drop_last() =~= dv.take(i as int));
            assert(dv.take(i + 1).last() == dv[i as int]);
            assert(dv[i as int] == xs@[i as int]@);
        }
        if !list_contains_bytes(&r, &xs[i]) {
            r.push(clone_bytes(&xs[i]));
            assert(r.deep_view() =~~= pre.push(dv[i as int]));
        }
        i = i + 1;
    }
    assert(dv.take(xs@.len() as int) =~= dv);
    r
}

/// The matched subscriptions that deliver to `t`, as snapshots.
pub fn subs_for_target(ms: &Vec<Subscription>, t: u64) -> (r: Vec<Subscription>)
    ensures
        r.deep_view() == filter_target(ms.deep_view(), t),
{
    let ghost mv = ms.deep_view();
    let mut r: Vec<Subscription> = Vec::new();
    let mut i: usize = 0;
    while i < ms.len()
        invariant
            mv == ms.deep_view(),
            mv.len() == ms@.len(),
            0 <= i <= ms@.len(),
            r.deep_view() == filter_target(mv.take(i as int), t),
        decreases ms@.len() - i,
    {
        let ghost pre = r.deep_view();
        proof {
            assert(mv.take(i + 1).drop_last() =~= mv.take(i as int));
            assert(mv.take(i + 1).last() == mv[i as int]);
            assert(mv[i as int] == ms@[i as int]@);
        }
        if ms[i].delivery_target == t {
            r.push(clone_subscription(&ms[i]));
            assert(r.deep_view() =~~= pre.push(mv[i as int]));
        }
        i = i + 1;
    }
    assert(mv.take(ms@.len() as int) =~= mv);
    r
}

/// The delivery targets of `ms`, each once, in order of first appearance.
pub fn targets_of(ms: &Vec<Subscription>) -> (r: Vec<u64>)
    ensures
        r@ == targets_spec(ms.deep_view()),
{
    let ghost mv = ms.deep_view();
    let mut raw: Vec<u64> = Vec::new();
    let mut i: usize = 0;
    while i < ms.len()
        invariant
            mv == ms.deep_view(),
            mv.len() == ms@.len(),
            0 <= i <= ms@.len(),
            raw@ == targets_seq(mv.take(i as int)),
        decreases ms@.len() - i,
    {
        proof {
            assert(mv[i as int] == ms@[i as int]@);
            assert(mv.take(i + 1).drop_last() =~= mv.take(i as int));
            assert(mv.take(i + 1).last() == mv[i as int]);
        }
        raw.push(ms[i].delivery_target);
        proof {
            assert(raw@ =~= targets_seq(mv.take(i + 1)));
        }
        i = i + 1;
    }
    assert(mv.take(ms@.len() as int) =~= mv);
    dedup_u64_exec(&raw)
}

/// The keywords of a group, each once, in evaluation order.
pub fn keywords_of(group: &Vec<Subscription>) -> (r: Vec<Vec<u8>>)
    ensures
        r.deep_view() == dedup_first(keywords_seq(group.deep_view())),
{
    let ghost gv = group.deep_view();
    let mut raw: Vec<Vec<u8>> = Vec::new();
    let mut i: usize = 0;
    while i < group.len()
        invariant
            gv == group.deep_view(),
            gv.len() == group@.len(),
            0 <= i <= group@.len(),
            raw.deep_view() == keywords_seq(gv.take(i as int)),
        decreases group@.len() - i,
    {
        let ghost pre = raw.deep_view();
        proof {
            assert(gv[i as int] == group@[i as int]@);
            assert(gv.take(i + 1).drop_last() =~= gv.take(i as int));
            assert(gv.take(i + 1).last() == gv[i as int]);
        }
        raw.push(clone_bytes(&group[i].keyword));
        proof {
            assert(raw.deep_view() =~~= pre.push(gv[i as int].keyword));
            assert(raw.deep_view() =~~= keywords_seq(gv.take(i + 1)));
        }
        i = i + 1;
    }
    assert(gv.take(group@.len() as int) =~= gv);
    dedup_bytes_exec(&raw)
}

/// The subscribers of a group, each once, in evaluation order.
pub fn owners_of(group: &Vec<Subscription>) -> (r: Vec<u64>)
    ensures
        r@ == dedup_first(owners_seq(group.deep_view())),
{
    let ghost gv = group.deep_view();
    let mut raw: Vec<u64> = Vec::new();
    let mut i: usize = 0;
    while i < group.len()
        invariant
            gv == group.deep_view(),
            gv.len() == group@.len(),
            0 <= i <= group@.len(),
            raw@ == owners_seq(gv.take(i as int)),
        decreases group@.len() - i,
    {
        proof {
            assert(gv[i as int] == group@[i as int]@);
            assert(gv.take(i + 1).drop_last() =~= gv.take(i as int));
            assert(gv.take(i + 1).last() == gv[i as int]);
        }
        raw.push(group[i].owner_id);
        proof {
            assert(raw@ =~= owners_seq(gv.take(i + 1)));
        }
        i = i + 1;
    }
    assert(gv.take(group@.len() as int) =~= gv);
    dedup_u64_exec(&raw)
}

/// One trigger pass. Claims up to `limit` unprocessed items, evaluates every
/// active subscription against each, groups the matches per item and
/// delivery target, commits the claimed items as notified together with one
/// audit entry per group, and returns the batches for dispatch. Items that
/// match no subscription are still committed notified: a claimed item is
/// processed exactly once whatever it matched. Safe to re-invoke and to run
/// from several workers: claims are exclusive and non-blocking.
#[verifier::rlimit(50)]
pub fn run_trigger_pass(
    store: &mut ItemStore,
    subs: &Vec<Subscription>,
    limit: usize,
    now: i64,
) -> (batches: Vec<NotificationBatch>)
    requires
        old(store).wf(),
    ensures
        final(store).wf(),
        ({
            let items = picked_items(old(store)@.rows, limit as nat);
            let sv = subs.deep_view();
            &&& batches.deep_view() == pass_batches(items, sv)
            &&& final(store)@.audit == old(store)@.audit + pass_audits(items, sv, now)
            &&& final(store)@.rows == rows_after_mark(
                rows_after_claim(old(store)@.rows, limit as nat),
                ids_of(items),
            )
            &&& final(store).next_id == old(store).next_id
        }),
{
    let ghost rows0 = store@.rows;
    let ghost audit0 = store@.audit;
    let ghost sv = subs.deep_view();
    let claimed = store.claim_unprocessed(limit);
    let ghost picks = claim_picks(rows0, limit as nat);
    let ghost items = picked_items(rows0, limit as nat);
    proof {
        assert(claimed.deep_view() =~= items);
    }
    let mut ids: Vec<u64> = Vec::new();
    let mut batches: Vec<NotificationBatch> = Vec::new();
    let mut audits: Vec<AuditEntry> = Vec::new();
    let mut x: usize = 0;
    let n = claimed.len();
    while x < n
        invariant
            n == claimed.len(),
            items == claimed.deep_view(),
            items.len() == claimed@.len(),
            sv == subs.deep_view(),
            0 <= x <= n,
            ids@ == ids_of(items.take(x as int)),
            batches.deep_view() == pass_batches(items.take(x as int), sv),
            audits.deep_view() == pass_audits(items.take(x as int), sv, now),
        decreases n - x,
    {
        proof {
            assert(items.take(x + 1).drop_last() =~= items.take(x as int));
            assert(items.take(x + 1).last() == items[x as int]);
            assert(items[x as int] == claimed@[x as int]@);
        }
        let item = &claimed[x];
        let ghost iv = items[x as int];
        ids.push(item.id);
        proof {
            assert(ids@ =~= ids_of(items.take(x + 1)));
        }
        let ms = matched_for(item, subs);
        let ts = targets_of(&ms);
        let ghost tseq = targets_spec(matched_subs(iv, sv));
        let mut y: usize = 0;
        let nt = ts.len();
        while y < nt
            invariant
                nt == ts.len(),
                ts@ == tseq,
                tseq == targets_spec(matched_subs(iv, sv)),
                ms.deep_view() == matched_subs(iv, sv),
                iv == items[x as int],
                0 <= x < items.len(),
                sv == subs.deep_view(),
                items == claimed.deep_view(),
                items.len() == claimed@.len(),
                n == claimed.len(),
                iv == claimed@[x as int]@,
                0 <= y <= nt,
                batches.deep_view() == pass_batches(items.take(x as int), sv) + item_batches(
                    iv,
                    sv,
                ).take(y as int),
                audits.deep_view() == pass_audits(items.take(x as int), sv, now) + item_audits(
                    iv,
                    sv,
                    now,
                ).take(y as int),
            decreases nt - y,
        {
            let ghost pre_b = batches.deep_view();
            let ghost pre_a = audits.deep_view();
            let t = ts[y];
            let group = subs_for_target(&ms, t);
            let kws = keywords_of(&group);
            let owners = owners_of(&group);
            let item_ref = &claimed[x];
            let b = NotificationBatch {
                item_id: item_ref.id,
                external_id: clone_bytes(&item_ref.external_id),
                delivery_target: t,
                title: clone_bytes(&item_ref.title),
                link: clone_bytes(&item_ref.link),
                thumbnail: clone_bytes_opt(&item_ref.thumbnail),
                categories: clone_byte_list(&item_ref.categories),
                matched_keywords: kws,
                mention_subjects: owners,
            };
            proof {
                assert(b@.categories =~~= iv.categories);
                assert(b@.matched_keywords =~~= batch_for(iv, sv, t).matched_keywords);
                assert(b@ == batch_for(iv, sv, t));
                assert(item_batches(iv, sv)[y as int] == batch_for(iv, sv, tseq[y as int]));
            }
            let a = AuditEntry {
                item_id: item_ref.id,
                external_id: clone_bytes(&item_ref.external_id),
                delivery_target: t,
                matched_subscriptions: group,
                delivered_at: now,
            };
            proof {
                assert(a@.matched_subscriptions =~~= audit_for(iv, sv, t, now).matched_subscriptions);
                assert(a@ == audit_for(iv, sv, t, now));
                assert(item_audits(iv, sv, now)[y as int] == audit_for(iv, sv, tseq[y as int], now));
            }
            batches.push(b);
            audits.push(a);
            proof {
                assert(item_batches(iv, sv).take(y + 1).drop_last() =~= item_batches(
                    iv,
                    sv,
                ).take(y as int));
                assert(item_audits(iv, sv, now).take(y + 1).drop_last() =~= item_audits(
                    iv,
                    sv,
                    now,
                ).take(y as int));
                assert(batches.deep_view() =~~= pre_b.push(batch_for(iv, sv, t)));
                assert(audits.deep_view() =~~= pre_a.push(audit_for(iv, sv, t, now)));
                assert(batches.deep_view() =~~= pass_batches(items.take(x as int), sv)
                    + item_batches(iv, sv).take(y + 1));
                assert(audits.deep_view() =~~= pass_audits(items.take(x as int), sv, now)
                    + item_audits(iv, sv, now).take(y + 1));
            }
            y = y + 1;
        }
        proof {
            assert(item_batches(iv, sv).take(nt as int) =~= item_batches(iv, sv));
            assert(item_audits(iv, sv, now).take(nt as int) =~= item_audits(iv, sv, now));
            assert(batches.deep_view() =~~= pass_batches(items.take(x + 1), sv));
            assert(audits.deep_view() =~~= pass_audits(items.take(x + 1), sv, now));
        }
        x = x + 1;
    }
    proof {
        assert(items.take(n as int) =~= items);
    }
    store.commit_pass(&ids, audits);
    proof {
        assert(ids@ == ids_of(items));
        assert(store@.audit =~~= audit0 + pass_audits(items, sv, now));
        assert(store@.rows == rows_after_mark(rows_after_claim(rows0, limit as nat), ids_of(items)));
    }
    batches
}

/// The deduplicated sequence holds no element twice.
pub proof fn lemma_dedup_first_distinct<T>(s: Seq<T>)
    ensures
        forall|k1: int, k2: int|
            0 <= k1 < k2 < dedup_first(s).len() ==> dedup_first(s)[k1] != dedup_first(s)[k2],
    decreases s.len(),
{
    if s.len() > 0 {
        lemma_dedup_first_distinct(s.drop_last());
        let d = dedup_first(s.drop_last());
        let q = dedup_first(s);
        if !d.contains(s.last()) {
            assert forall|k1: int, k2: int|
                0 <= k1 < k2 < q.len() implies q[k1] != q[k2] by {
                if k2 == d.len() {
                    if d[k1] == s.last() {
                        assert(d.contains(s.last()));
                    }
                }
            }
        }
    }
}

/// Law (audit uniqueness, within an item): one pass records at most one
/// audit entry per delivery target for each item, whatever the
/// subscriptions are.
pub proof fn lemma_one_audit_per_target(item: FeedItemView, subs: Seq<SubscriptionView>, now: i64)
    ensures
        forall|k1: int, k2: int|
            0 <= k1 < k2 < item_audits(item, subs, now).len() ==> item_audits(
                item,
                subs,
                now,
            )[k1].delivery_target != item_audits(item, subs, now)[k2].delivery_target,
{
    lemma_dedup_first_distinct(targets_seq(matched_subs(item, subs)));
    let ts = targets_spec(matched_subs(item, subs));
    assert forall|k1: int, k2: int|
        0 <= k1 < k2 < item_audits(item, subs, now).len() implies item_audits(
        item,
        subs,
        now,
    )[k1].delivery_target != item_audits(item, subs, now)[k2].delivery_target by {
        assert(item_audits(item, subs, now)[k1] == audit_for(item, subs, ts[k1], now));
        assert(item_audits(item, subs, now)[k2] == audit_for(item, subs, ts[k2], now));
    }
}

/// Law (audit uniqueness, across items): the items of one claim carry
/// pairwise distinct keys, so the audit entries of one pass never repeat an
/// (item, delivery target) pair.
pub proof fn lemma_picked_ids_distinct(
    rows: Seq<crate::store::StoredRowView>,
    next_id: u64,
    limit: nat,
)
    requires
        crate::store::wf_rows(rows, next_id),
    ensures
        forall|k1: int, k2: int|
            0 <= k1 < k2 < picked_items(rows, limit).len() ==> picked_items(rows, limit)[k1].id
                != picked_items(rows, limit)[k2].id,
{
    crate::store::lemma_claim_picks_props(rows, limit);
    let picks = claim_picks(rows, limit);
    assert forall|k1: int, k2: int|
        0 <= k1 < k2 < picked_items(rows, limit).len() implies picked_items(rows, limit)[k1].id
        != picked_items(rows, limit)[k2].id by {
        assert(picked_items(rows, limit)[k1] == rows[picks[k1]].item);
        assert(picked_items(rows, limit)[k2] == rows[picks[k2]].item);
        assert(picks[k1] < picks[k2]);
    }
}

} // verus!
