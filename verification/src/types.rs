//! The record types of the wider application: configuration, the change
//! event payload delivered by the document store, registry row shapes, and
//! the fixed category set with its wildcard.
//!
//! These are plain data carriers; the matching rules work on the byte-level
//! model types and treat category names as opaque tags. The one category
//! with special matching semantics is the wildcard, `All`.

use vstd::prelude::*;

verus! {

/// The application's runtime configuration, read at bootstrap.
#[derive(Debug)]
pub struct ApplicationConfig {
    pub discord_token: String,
    pub mongodb_connection_string: String,
    pub redis_connection_string: String,
}

/// A change event for a stored document, as the document store's change
/// stream delivers it.
#[derive(Default, Debug, Clone, PartialEq)]
pub struct MongoDbPayload {
    pub version: String,
    pub id: String,
    pub detail_type: String,
    pub source: String,
    pub account: String,
    pub time: String,
    pub region: String,
    pub resources: Vec<String>,
    pub detail: Detail,
}

/// The body of a change event.
#[derive(Default, Debug, Clone, PartialEq)]
pub struct Detail {
    pub id: Id,
    pub operation_type: String,
    pub cluster_time: ClusterTime,
    pub full_document: FullDocument,
    pub ns: Ns,
    pub document_key: DocumentKey,
}

/// The change event's resume token.
#[derive(Default, Debug, Clone, PartialEq)]
pub struct Id {
    pub data: String,
}

/// The cluster timestamp of a change event.
#[derive(Default, Debug, Clone, PartialEq)]
pub struct ClusterTime {
    pub t: i64,
    pub i: i64,
}

/// The document a change event carries.
#[derive(Default, Debug, Clone, PartialEq)]
pub struct FullDocument {
    pub id: String,
    pub post_id: String,
}

/// The namespace a change event happened in.
#[derive(Default, Debug, Clone, PartialEq)]
pub struct Ns {
    pub db: String,
    pub coll: String,
}

/// The key of the changed document.
#[derive(Default, Debug, Clone, PartialEq)]
pub struct DocumentKey {
    pub id: String,
}

/// A registered keyword row as the relational registry stores it.
#[derive(Debug)]
pub struct RegisteredKeywords {
    pub id: i32,
    pub keyword: String,
    pub owner: i32,
    pub notification_id: i32,
    pub categories: Vec<i32>,
}

/// A keyword row as the autocompletion query returns it.
#[derive(Debug)]
pub struct AutocompleteKeywords {
    pub id: i32,
    pub keyword: String,
    pub categories: Vec<String>,
}

/// The fixed set of content categories. `All` is the wildcard: a
/// subscription holding it matches items of every category.
#[derive(PartialEq, Eq, Structural, Clone, Copy, Debug)]
pub enum Categories {
    All,
    Alcohol,
    Automotive,
    BooksAndMagazines,
    Computing,
    DiningAndTakeaway,
    Education,
    ElectricalAndElectronics,
    Entertainment,
    FashionAndApparel,
    Financial,
    Gaming,
    Groceries,
    HealthAndBeauty,
    HomeAndGarden,
    Internet,
    Mobile,
    Pets,
    SportsAndOutdoors,
    ToysAndKids,
    Travel,
    Other,
}

impl Categories {
    /// The category's display name, as the feed and the registry spell it.
    pub fn name(&self) -> (r: &'static str)
        ensures
            *self is All ==> r@ == "All"@,
    {
        match self {
            Categories::All => "All",
            Categories::Alcohol => "Alcohol",
            Categories::Automotive => "Automotive",
            Categories::BooksAndMagazines => "Books & Magazines",
            Categories::Computing => "Computing",
            Categories::DiningAndTakeaway => "Dining & Takeaway",
            Categories::Education => "Education",
            Categories::ElectricalAndElectronics => "Electrical & Electronics",
            Categories::Entertainment => "Entertainment",
            Categories::FashionAndApparel => "Fashion & Apparel",
            Categories::Financial => "Financial",
            Categories::Gaming => "Gaming",
            Categories::Groceries => "Groceries",
            Categories::HealthAndBeauty => "Health & Beauty",
            Categories::HomeAndGarden => "Home & Garden",
            Categories::Internet => "Internet",
            Categories::Mobile => "Mobile",
            Categories::Pets => "Pets",
            Categories::SportsAndOutdoors => "Sports & Outdoors",
            Categories::ToysAndKids => "Toys & Kids",
            Categories::Travel => "Travel",
            Categories::Other => "Other",
        }
    }

    /// The category's display name as bytes, as the match engine compares
    /// category tags; the wildcard's bytes are the match engine's wildcard
    /// name.
    pub fn name_bytes(&self) -> (r: Vec<u8>)
        ensures
            *self is All ==> r@ == crate::match_engine::wildcard_name(),
    {
        match self {
            Categories::All => crate::match_engine::wildcard_bytes(),
            _ => vstd::slice::slice_to_vec(self.name().as_bytes()),
        }
    }

    /// The emoji shown beside the category in selection menus.
    pub fn emoji(&self) -> &'static str {
        match self {
            Categories::All => "\u{1F30F}",
            Categories::Alcohol => "\u{1F37A}",
            Categories::Automotive => "\u{1F3CE}\u{FE0F}",
            Categories::BooksAndMagazines => "\u{1F4DA}",
            Categories::Computing => "\u{1F5A5}\u{FE0F}",
            Categories::DiningAndTakeaway => "\u{1F961}",
            Categories::Education => "\u{1F9EE}",
            Categories::ElectricalAndElectronics => "\u{1F50C}",
            Categories::Entertainment => "\u{1F483}",
            Categories::FashionAndApparel => "\u{1F45C}",
            Categories::Financial => "\u{1F4B8}",
            Categories::Gaming => "\u{1F3AE}",
            Categories::Groceries => "\u{1F6CD}\u{FE0F}",
            Categories::HealthAndBeauty => "\u{1F3E5}",
            Categories::HomeAndGarden => "\u{1F3E1}",
            Categories::Internet => "\u{1F310}",
            Categories::Mobile => "\u{1F4F1}",
            Categories::Pets => "\u{1F408}",
            Categories::SportsAndOutdoors => "\u{1F3CF}",
            Categories::ToysAndKids => "\u{1FA85}",
            Categories::Travel => "\u{1F6EB}",
            Categories::Other => "\u{1F3B2}",
        }
    }

    /// Every category, the wildcard first, in menu order.
    pub fn all_categories() -> (r: Vec<Categories>)
        ensures
            r@.len() == 22,
            r@[0] is All,
    {
        let mut r: Vec<Categories> = Vec::new();
        r.push(Categories::All);
        r.push(Categories::Alcohol);
        r.push(Categories::Automotive);
        r.push(Categories::BooksAndMagazines);
        r.push(Categories::Computing);
        r.push(Categories::DiningAndTakeaway);
        r.push(Categories::Education);
        r.push(Categories::ElectricalAndElectronics);
        r.push(Categories::Entertainment);
        r.push(Categories::FashionAndApparel);
        r.push(Categories::Financial);
        r.push(Categories::Gaming);
        r.push(Categories::Groceries);
        r.push(Categories::HealthAndBeauty);
        r.push(Categories::HomeAndGarden);
        r.push(Categories::Internet);
        r.push(Categories::Mobile);
        r.push(Categories::Pets);
        r.push(Categories::SportsAndOutdoors);
        r.push(Categories::ToysAndKids);
        r.push(Categories::Travel);
        r.push(Categories::Other);
        r
    }
}

} // verus!
