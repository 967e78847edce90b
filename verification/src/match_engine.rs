//! The match engine: a pure predicate deciding whether a feed item matches a
//! subscription.
//!
//! A subscription matches an item when its keyword, case-folded, occurs in
//! the case-folded title or normalized description, and its category set
//! admits the item: an empty category set, or one holding the wildcard,
//! admits every item; otherwise some subscription category must equal one of
//! the item's categories byte for byte.

use vstd::prelude::*;
use crate::model::{FeedItem, FeedItemView, Subscription, SubscriptionView};
use crate::normalize::{normalize, normalize_seq};
use crate::text::{contains_sub, is_substring, lower_seq, to_lower};

verus! {

/// The three bytes of the wildcard category name, `All`.
pub open spec fn wildcard_name() -> Seq<u8> {
    seq![65u8, 108u8, 108u8]
}

/// Builds the wildcard category name.
pub fn wildcard_bytes() -> (r: Vec<u8>)
    ensures
        r@ == wildcard_name(),
{
    let mut r: Vec<u8> = Vec::new();
    r.push(65);
    r.push(108);
    r.push(108);
    assert(r@ =~= wildcard_name());
    r
}

/// Whether a subscription's category set admits an item's category set.
pub open spec fn category_match(sub_cats: Seq<Seq<u8>>, item_cats: Seq<Seq<u8>>) -> bool {
    ||| sub_cats.len() == 0
    ||| sub_cats.contains(wildcard_name())
    ||| exists|i: int, j: int|
        0 <= i < sub_cats.len() && 0 <= j < item_cats.len() && sub_cats[i] == item_cats[j]
}

/// The case-folded text a keyword is searched in: the title, then the
/// normalized description.
pub open spec fn haystack(item: FeedItemView) -> Seq<u8> {
    lower_seq(item.title) + lower_seq(normalize_seq(item.description_raw))
}

/// Whether `sub` matches `item`.
pub open spec fn matches_view(item: FeedItemView, sub: SubscriptionView) -> bool {
    is_substring(haystack(item), lower_seq(sub.keyword)) && category_match(
        sub.categories,
        item.categories,
    )
}

/// Whether a subscription's category set admits an item's category set.
pub fn category_match_exec(sub_cats: &Vec<Vec<u8>>, item_cats: &Vec<Vec<u8>>) -> (r: bool)
    ensures
        r == category_match(sub_cats.deep_view(), item_cats.deep_view()),
{
    let ghost sc = sub_cats.deep_view();
    let ghost ic = item_cats.deep_view();
    if sub_cats.len() == 0 {
        return true;
    }
    let w = wildcard_bytes();
    let mut i: usize = 0;
    while i < sub_cats.len()
        invariant
            sc == sub_cats.deep_view(),
            ic == item_cats.deep_view(),
            sc.len() == sub_cats@.len(),
            ic.len() == item_cats@.len(),
            w@ == wildcard_name(),
            0 <= i <= sc.len(),
            forall|k: int| 0 <= k < i ==> sc[k] != wildcard_name(),
            forall|k: int, j: int| 0 <= k < i && 0 <= j < ic.len() ==> sc[k] != ic[j],
        decreases sc.len() - i,
    {
        proof {
            assert(sc[i as int] == sub_cats@[i as int]@);
        }
        if crate::model::bytes_eq(&sub_cats[i], &w) {
            assert(sc.contains(wildcard_name())) by {
                assert(sc[i as int] == wildcard_name());
            }
            return true;
        }
        let mut j: usize = 0;
        while j < item_cats.len()
            invariant
                sc == sub_cats.deep_view(),
                ic == item_cats.deep_view(),
                sc.len() == sub_cats@.len(),
                ic.len() == item_cats@.len(),
                0 <= i < sc.len(),
                0 <= j <= ic.len(),
                sc[i as int] == sub_cats@[i as int]@,
                forall|m: int| 0 <= m < j ==> sc[i as int] != ic[m],
            decreases ic.len() - j,
        {
            proof {
                assert(ic[j as int] == item_cats@[j as int]@);
            }
            if crate::model::bytes_eq(&sub_cats[i], &item_cats[j]) {
                assert(category_match(sc, ic)) by {
                    assert(sc[i as int] == ic[j as int]);
                }
                return true;
            }
            j = j + 1;
        }
        i = i + 1;
    }
    proof {
        assert(!sc.contains(wildcard_name())) by {
            if sc.contains(wildcard_name()) {
                let k = choose|k: int| 0 <= k < sc.len() && sc[k] == wildcard_name();
                assert(sc[k] != wildcard_name());
            }
        }
    }
    false
}

/// Decides whether `sub` matches `item`: the case-folded keyword occurs in
/// the case-folded title or normalized description, and the category rule
/// admits the item.
pub fn matches(item: &FeedItem, sub: &Subscription) -> (r: bool)
    ensures
        r == matches_view(item@, sub@),
{
    let mut hay = to_lower(item.title.as_slice());
    let norm = normalize(item.description_raw.as_slice());
    let lnorm = to_lower(norm.as_slice());
    crate::normalize::append_bytes(&mut hay, lnorm.as_slice());
    assert(hay@ == haystack(item@));
    let kw = to_lower(sub.keyword.as_slice());
    let text_ok = contains_sub(hay.as_slice(), kw.as_slice());
    if !text_ok {
        return false;
    }
    category_match_exec(&sub.categories, &item.categories)
}

/// Law: a subscription with an empty category set admits any item, and so
/// does one whose category set holds exactly the wildcard.
pub proof fn lemma_category_wildcard(sub_cats: Seq<Seq<u8>>, item_cats: Seq<Seq<u8>>)
    requires
        sub_cats.len() == 0 || sub_cats == seq![wildcard_name()],
    ensures
        category_match(sub_cats, item_cats),
{
    if sub_cats.len() != 0 {
        assert(sub_cats.contains(wildcard_name())) by {
            assert(sub_cats[0] == wildcard_name());
        }
    }
}

/// Law: a subscription whose categories hold exactly the wildcard matches
/// the same items as one with no categories and the same keyword.
pub proof fn lemma_wildcard_equals_empty(
    item: FeedItemView,
    empty_sub: SubscriptionView,
    wild_sub: SubscriptionView,
)
    requires
        empty_sub.keyword == wild_sub.keyword,
        empty_sub.categories.len() == 0,
        wild_sub.categories == seq![wildcard_name()],
    ensures
        matches_view(item, empty_sub) == matches_view(item, wild_sub),
{
    lemma_category_wildcard(empty_sub.categories, item.categories);
    lemma_category_wildcard(wild_sub.categories, item.categories);
}

} // verus!
