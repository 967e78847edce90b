//! The subscription registry: read access to the standing keyword and
//! category filters, grouped by owner and delivery target.
//!
//! The registration surface (an interactive chat flow in deployments) only
//! needs to add and remove rows; the trigger worker reads a snapshot of the
//! active subscriptions once per pass.

use vstd::prelude::*;
use crate::match_engine::wildcard_name;
use crate::model::{clone_subscription, Subscription, SubscriptionView};

verus! {

/// The registry of active subscriptions.
#[derive(Debug)]
pub struct SubscriptionRegistry {
    pub subs: Vec<Subscription>,
}

impl View for SubscriptionRegistry {
    type V = Seq<SubscriptionView>;

    open spec fn view(&self) -> Seq<SubscriptionView> {
        self.subs.deep_view()
    }
}

/// The least index whose subscription carries `id`, searching from `i`;
/// `-1` when there is none.
pub open spec fn find_sub_id_from(subs: Seq<SubscriptionView>, id: u64, i: int) -> int
    decreases subs.len() - i
    when 0 <= i <= subs.len()
{
    if i >= subs.len() {
        -1
    } else if subs[i].id == id {
        i
    } else {
        find_sub_id_from(subs, id, i + 1)
    }
}

impl SubscriptionRegistry {
    /// An empty registry.
    pub fn new() -> (r: SubscriptionRegistry)
        ensures
            r@.len() == 0,
    {
        let r = SubscriptionRegistry { subs: Vec::new() };
        assert(r@ =~= Seq::<SubscriptionView>::empty());
        r
    }

    /// Registers a subscription; rows are kept in registration order.
    pub fn add(&mut self, s: Subscription)
        ensures
            final(self)@ == old(self)@.push(s@),
    {
        self.subs.push(s);
        assert(self@ =~~= old(self)@.push(s@));
    }

    /// Removes the first subscription carrying `id` and returns it; the
    /// registry is unchanged when no row carries `id`.
    pub fn remove(&mut self, id: u64) -> (r: Option<Subscription>)
        ensures
            ({
                let k = find_sub_id_from(old(self)@, id, 0);
                match r {
                    Some(s) => k >= 0 && s@ == old(self)@[k] && final(self)@ == old(
                        self,
                    )@.remove(k),
                    None => k == -1 && final(self)@ == old(self)@,
                }
            }),
    {
        let ghost subs0 = self@;
        let mut i: usize = 0;
        let n = self.subs.len();
        while i < n
            invariant
                n == self.subs.len(),
                subs0 == self@,
                subs0 == old(self)@,
                0 <= i <= n,
                find_sub_id_from(subs0, id, 0) == find_sub_id_from(subs0, id, i as int),
            decreases n - i,
        {
            proof {
                assert(subs0[i as int] == self.subs@[i as int]@);
            }
            if self.subs[i].id == id {
                assert(find_sub_id_from(subs0, id, i as int) == i);
                let s = self.subs.remove(i);
                assert(self@ =~~= subs0.remove(i as int));
                return Some(s);
            }
            assert(find_sub_id_from(subs0, id, i as int) == find_sub_id_from(subs0, id, i + 1));
            i = i + 1;
        }
        assert(find_sub_id_from(subs0, id, i as int) == -1);
        None
    }

    /// The current snapshot of active subscriptions, re-read by the trigger
    /// worker for each pass.
    pub fn active_subscriptions(&self) -> (r: &Vec<Subscription>)
        ensures
            r.deep_view() == self@,
    {
        &self.subs
    }

    /// The subscriptions one subscriber registered for one delivery target,
    /// in registration order: what an autocompletion query offers for
    /// removal.
    pub fn subscriptions_for(&self, owner_id: u64, delivery_target: u64) -> (r: Vec<Subscription>)
        ensures
            r.deep_view() == owned_subs(self@, owner_id, delivery_target),
    {
        let ghost sv = self@;
        let mut r: Vec<Subscription> = Vec::new();
        let mut i: usize = 0;
        while i < self.subs.len()
            invariant
                sv == self@,
                sv.len() == self.subs@.len(),
                0 <= i <= sv.len(),
                r.deep_view() == owned_subs(sv.take(i as int), owner_id, delivery_target),
            decreases sv.len() - i,
        {
            let ghost pre = r.deep_view();
            proof {
                assert(sv.take(i + 1).drop_last() =~= sv.take(i as int));
                assert(sv.take(i + 1).last() == sv[i as int]);
                assert(sv[i as int] == self.subs@[i as int]@);
            }
            if self.subs[i].owner_id == owner_id && self.subs[i].delivery_target
                == delivery_target {
                r.push(clone_subscription(&self.subs[i]));
                assert(r.deep_view() =~~= pre.push(sv[i as int]));
            }
            i = i + 1;
        }
        assert(sv.take(self.subs@.len() as int) =~= sv);
        r
    }
}

/// The subscriptions of one subscriber for one delivery target, in order.
pub open spec fn owned_subs(
    subs: Seq<SubscriptionView>,
    owner_id: u64,
    delivery_target: u64,
) -> Seq<SubscriptionView>
    decreases subs.len(),
{
    if subs.len() == 0 {
        seq![]
    } else {
        let init = owned_subs(subs.drop_last(), owner_id, delivery_target);
        if subs.last().owner_id == owner_id && subs.last().delivery_target == delivery_target {
            init.push(subs.last())
        } else {
            init
        }
    }
}

/// What a registered category selection is stored as: a selection that
/// holds the wildcard collapses to the wildcard alone, any other selection
/// is stored as picked.
pub open spec fn canonical_cats(picked: Seq<Seq<u8>>) -> Seq<Seq<u8>> {
    if picked.contains(wildcard_name()) {
        seq![wildcard_name()]
    } else {
        picked
    }
}

/// Canonicalizes a category selection before registration: a selection
/// holding the wildcard means "match any category" and is stored as the
/// wildcard alone.
pub fn canonicalize_categories(picked: Vec<Vec<u8>>) -> (r: Vec<Vec<u8>>)
    ensures
        r.deep_view() == canonical_cats(picked.deep_view()),
{
    let w = crate::match_engine::wildcard_bytes();
    if crate::worker::list_contains_bytes(&picked, &w) {
        let mut r: Vec<Vec<u8>> = Vec::new();
        r.push(w);
        assert(r.deep_view() =~~= seq![wildcard_name()]);
        r
    } else {
        picked
    }
}

} // verus!
