//! The feed ingestor: turns one poll of the content feed into idempotent
//! upserts against the item store.
//!
//! The transport (HTTP, conditional caching) lives outside; this module is
//! handed the poll's outcome. Parsing the feed document into entries is done
//! by an outside crate behind trusted wrappers; everything after that — the
//! identifier token, the publication date check, entity unescaping of
//! category names, skipping of incomplete entries, and the upserts — is
//! verified.

use vstd::prelude::*;
use crate::model::{ItemDraft, ItemDraftView};
use crate::store::{find_eid_from, rows_after_upsert, ItemStore, StoredRowView};

verus! {

/// One entry of a parsed feed document, fields as the document carried
/// them; everything optional but the category tags.
#[derive(Debug)]
pub struct RawEntry {
    pub guid: Option<Vec<u8>>,
    pub title: Option<Vec<u8>>,
    pub pub_date: Option<Vec<u8>>,
    pub link: Option<Vec<u8>>,
    pub description: Option<Vec<u8>>,
    pub thumbnail: Option<Vec<u8>>,
    pub categories: Vec<Vec<u8>>,
}

/// The mathematical value of a `RawEntry`.
pub struct RawEntryView {
    pub guid: Option<Seq<u8>>,
    pub title: Option<Seq<u8>>,
    pub pub_date: Option<Seq<u8>>,
    pub link: Option<Seq<u8>>,
    pub description: Option<Seq<u8>>,
    pub thumbnail: Option<Seq<u8>>,
    pub categories: Seq<Seq<u8>>,
}

impl View for RawEntry {
    type V = RawEntryView;

    open spec fn view(&self) -> RawEntryView {
        RawEntryView {
            guid: crate::model::opt_bytes_view(self.guid),
            title: crate::model::opt_bytes_view(self.title),
            pub_date: crate::model::opt_bytes_view(self.pub_date),
            link: crate::model::opt_bytes_view(self.link),
            description: crate::model::opt_bytes_view(self.description),
            thumbnail: crate::model::opt_bytes_view(self.thumbnail),
            categories: self.categories.deep_view(),
        }
    }
}

impl DeepView for RawEntry {
    type V = RawEntryView;

    open spec fn deep_view(&self) -> RawEntryView {
        self.view()
    }
}

/// What parsing a feed document yields: its entries in document order, or
/// nothing when the bytes are not a well-formed feed. A function of the
/// bytes alone.
pub uninterp spec fn feed_parse_of(b: Seq<u8>) -> Option<Seq<RawEntryView>>;

/// The entries a parsed channel holds, in document order.
pub uninterp spec fn channel_entries_of(ch: rss::Channel) -> Seq<RawEntryView>;

#[verifier::external_type_specification]
#[verifier::external_body]
pub struct ExChannel(rss::Channel);

/// Relies on rss::Channel::read_from: whether bytes parse as a feed, and
/// what entries they carry, is a function of the bytes alone.
#[verifier::external_body]
fn read_channel(bytes: &[u8]) -> (r: Option<rss::Channel>)
    ensures
        match r {
            Some(ch) => feed_parse_of(bytes@) == Some(channel_entries_of(ch)),
            None => feed_parse_of(bytes@) is None,
        },
{
    rss::Channel::read_from(bytes).ok()
}

/// Relies on rss::Channel::items: how many entries the channel holds.
#[verifier::external_body]
fn channel_len(ch: &rss::Channel) -> (n: usize)
    ensures
        n == channel_entries_of(*ch).len(),
{
    ch.items().len()
}

/// Relies on rss::Channel::items and the rss::Item accessors (guid, title,
/// pub_date, link, description, categories): copies the fields of one entry
/// out as plain bytes; the thumbnail is left for its own wrapper.
#[verifier::external_body]
fn channel_entry(ch: &rss::Channel, i: usize) -> (e: RawEntry)
    requires
        i < channel_entries_of(*ch).len(),
    ensures
        e@.guid == channel_entries_of(*ch)[i as int].guid,
        e@.title == channel_entries_of(*ch)[i as int].title,
        e@.pub_date == channel_entries_of(*ch)[i as int].pub_date,
        e@.link == channel_entries_of(*ch)[i as int].link,
        e@.description == channel_entries_of(*ch)[i as int].description,
        e@.categories == channel_entries_of(*ch)[i as int].categories,
        e@.thumbnail is None,
{
    let it = &ch.items()[i];
    RawEntry {
        guid: it.guid().map(|g| g.value().as_bytes().to_vec()),
        title: it.title().map(|t| t.as_bytes().to_vec()),
        pub_date: it.pub_date().map(|d| d.as_bytes().to_vec()),
        link: it.link().map(|l| l.as_bytes().to_vec()),
        description: it.description().map(|d| d.as_bytes().to_vec()),
        thumbnail: None,
        categories: it.categories().iter().map(|c| c.name().as_bytes().to_vec()).collect(),
    }
}

/// Relies on rss::Item::extensions: the `url` attribute of the entry's
/// first `media:thumbnail` extension element, when present.
#[verifier::external_body]
fn channel_entry_thumbnail(ch: &rss::Channel, i: usize) -> (t: Option<Vec<u8>>)
    requires
        i < channel_entries_of(*ch).len(),
    ensures
        crate::model::opt_bytes_view(t) == channel_entries_of(*ch)[i as int].thumbnail,
{
    let it = &ch.items()[i];
    it.extensions().get("media").and_then(|m| m.get("thumbnail")).and_then(|v| v.first())
        .and_then(|e| e.attrs.get("url")).map(|u| u.as_bytes().to_vec())
}

/// What the feed's publication-date format yields for a text: the timestamp
/// in seconds, or nothing when the text does not parse. A function of the
/// text alone.
pub uninterp spec fn feed_date_of(s: Seq<u8>) -> Option<i64>;

/// Relies on chrono::DateTime::parse_from_str with the feed's fixed format
/// (weekday, day, month, year, time, offset) and DateTime::timestamp: the
/// result depends on the text alone.
#[verifier::external_body]
pub fn parse_feed_date(s: &[u8]) -> (r: Option<i64>)
    ensures
        r == feed_date_of(s@),
{
    match core::str::from_utf8(s) {
        Ok(t) => chrono::DateTime::parse_from_str(t, "%a, %d %b %Y %T %z").ok().map(
            |d| d.timestamp(),
        ),
        Err(_) => None,
    }
}

/// Parses a feed document into its entries; nothing when the bytes are not
/// a well-formed feed.
pub fn parse_feed(bytes: &[u8]) -> (r: Option<Vec<RawEntry>>)
    ensures
        match r {
            Some(v) => feed_parse_of(bytes@) == Some(v.deep_view()),
            None => feed_parse_of(bytes@) is None,
        },
{
    match read_channel(bytes) {
        Some(ch) => {
            let n = channel_len(&ch);
            let mut v: Vec<RawEntry> = Vec::new();
            let mut i: usize = 0;
            while i < n
                invariant
                    n == channel_entries_of(ch).len(),
                    feed_parse_of(bytes@) == Some(channel_entries_of(ch)),
                    0 <= i <= n,
                    v.deep_view() =~= channel_entries_of(ch).take(i as int),
                decreases n - i,
            {
                let ghost pre = v.deep_view();
                let mut e = channel_entry(&ch, i);
                e.thumbnail = channel_entry_thumbnail(&ch, i);
                proof {
                    assert(e@ == channel_entries_of(ch)[i as int]);
                }
                v.push(e);
                proof {
                    assert(v.deep_view() =~~= pre.push(channel_entries_of(ch)[i as int]));
                    assert(v.deep_view() =~~= channel_entries_of(ch).take(i + 1));
                }
                i = i + 1;
            }
            proof {
                assert(v.deep_view() =~~= channel_entries_of(ch));
            }
            Some(v)
        },
        None => None,
    }
}

/// An ASCII whitespace byte.
pub open spec fn is_ascii_ws(b: u8) -> bool {
    b == 32 || b == 9 || b == 10 || b == 12 || b == 13
}

/// The least index `k >= i` whose byte is not ASCII whitespace, or
/// `s.len()`.
pub open spec fn find_non_ws_from(s: Seq<u8>, i: int) -> int
    decreases s.len() - i
    when 0 <= i <= s.len()
{
    if i >= s.len() {
        s.len() as int
    } else if is_ascii_ws(s[i]) {
        find_non_ws_from(s, i + 1)
    } else {
        i
    }
}

/// The least index `k >= i` whose byte is ASCII whitespace, or `s.len()`.
pub open spec fn find_ws_from(s: Seq<u8>, i: int) -> int
    decreases s.len() - i
    when 0 <= i <= s.len()
{
    if i >= s.len() {
        s.len() as int
    } else if is_ascii_ws(s[i]) {
        i
    } else {
        find_ws_from(s, i + 1)
    }
}

pub proof fn lemma_find_ws_bounds(s: Seq<u8>, i: int)
    requires
        0 <= i <= s.len(),
    ensures
        i <= find_non_ws_from(s, i) <= s.len(),
        i <= find_ws_from(s, i) <= s.len(),
    decreases s.len() - i,
{
    if i < s.len() {
        lemma_find_ws_bounds(s, i + 1);
    }
}

/// The first whitespace-delimited token of `s`: what stands between the
/// first non-whitespace byte and the next whitespace; empty when `s` is
/// empty or all whitespace.
pub open spec fn first_token(s: Seq<u8>) -> Seq<u8> {
    let a = find_non_ws_from(s, 0);
    let b = find_ws_from(s, a);
    s.subrange(a, b)
}

/// Extracts the first whitespace-delimited token of `s`.
pub fn first_token_exec(s: &[u8]) -> (r: Vec<u8>)
    ensures
        r@ == first_token(s@),
{
    proof {
        lemma_find_ws_bounds(s@, 0);
    }
    let n = s.len();
    let mut a: usize = 0;
    while a < n && (s[a] == 32 || s[a] == 9 || s[a] == 10 || s[a] == 12 || s[a] == 13)
        invariant
            n == s@.len(),
            0 <= a <= n,
            find_non_ws_from(s@, 0) == find_non_ws_from(s@, a as int),
        decreases n - a,
    {
        assert(find_non_ws_from(s@, a as int) == find_non_ws_from(s@, a + 1));
        a = a + 1;
    }
    assert(find_non_ws_from(s@, a as int) == a);
    proof {
        lemma_find_ws_bounds(s@, a as int);
    }
    let mut b: usize = a;
    while b < n && !(s[b] == 32 || s[b] == 9 || s[b] == 10 || s[b] == 12 || s[b] == 13)
        invariant
            n == s@.len(),
            0 <= a <= b <= n,
            find_ws_from(s@, a as int) == find_ws_from(s@, b as int),
        decreases n - b,
    {
        assert(find_ws_from(s@, b as int) == find_ws_from(s@, b + 1));
        b = b + 1;
    }
    assert(find_ws_from(s@, b as int) == b);
    crate::normalize::copy_range(s, a, b)
}

/// The five bytes of the escaped ampersand entity.
pub open spec fn amp_entity() -> Seq<u8> {
    seq![38u8, 97u8, 109u8, 112u8, 59u8]
}

/// `s` with every occurrence of the escaped ampersand entity replaced by a
/// bare ampersand, scanning left to right without overlap.
pub open spec fn unescape_amp(s: Seq<u8>) -> Seq<u8>
    decreases s.len(),
{
    if s.len() == 0 {
        seq![]
    } else if s.len() >= 5 && s.subrange(0, 5) == amp_entity() {
        seq![38u8] + unescape_amp(s.subrange(5, s.len() as int))
    } else {
        seq![s[0]] + unescape_amp(s.subrange(1, s.len() as int))
    }
}

/// Replaces every escaped ampersand entity in `s` by a bare ampersand.
pub fn unescape_amp_exec(s: &[u8]) -> (r: Vec<u8>)
    ensures
        r@ == unescape_amp(s@),
{
    let n = s.len();
    let mut out: Vec<u8> = Vec::new();
    let mut i: usize = 0;
    proof {
        assert(s@.skip(0) =~= s@);
        assert(out@ =~= Seq::<u8>::empty());
        assert(out@ + unescape_amp(s@) =~= unescape_amp(s@));
    }
    while i < n
        invariant
            n == s@.len(),
            0 <= i <= n,
            unescape_amp(s@) == out@ + unescape_amp(s@.skip(i as int)),
        decreases n - i,
    {
        let ghost suf = s@.skip(i as int);
        let is_ent = n - i >= 5 && s[i] == 38 && s[i + 1] == 97 && s[i + 2] == 109 && s[i + 3]
            == 112 && s[i + 4] == 59;
        if is_ent {
            proof {
                assert(suf.len() >= 5);
                assert(suf.subrange(0, 5) =~= amp_entity());
                assert(suf.subrange(5, suf.len() as int) =~= s@.skip(i + 5));
                assert(unescape_amp(suf) == seq![38u8] + unescape_amp(s@.skip(i + 5)));
            }
            out.push(38);
            i = i + 5;
        } else {
            proof {
                assert(suf.len() >= 1);
                if suf.len() >= 5 && suf.subrange(0, 5) == amp_entity() {
                    assert(suf[0] == 38 && suf[1] == 97 && suf[2] == 109 && suf[3] == 112
                        && suf[4] == 59);
                    assert(s@[i as int] == 38 && s@[i + 1] == 97 && s@[i + 2] == 109 && s@[i + 3]
                        == 112 && s@[i + 4] == 59);
                }
                assert(!(suf.len() >= 5 && suf.subrange(0, 5) == amp_entity()));
                assert(suf.subrange(1, suf.len() as int) =~= s@.skip(i + 1));
                assert(unescape_amp(suf) == seq![suf[0]] + unescape_amp(s@.skip(i + 1)));
                assert(suf[0] == s@[i as int]);
            }
            let b = s[i];
            out.push(b);
            i = i + 1;
        }
        proof {
            assert(unescape_amp(s@) =~= out@ + unescape_amp(s@.skip(i as int)));
        }
    }
    proof {
        assert(s@.skip(n as int) =~= Seq::<u8>::empty());
        assert(unescape_amp(s@) =~= out@);
    }
    out
}

/// Why an entry was skipped: a required field is missing, or the
/// publication date does not parse. A skipped entry is logged by the
/// caller; ingestion of the remaining entries continues.
#[derive(PartialEq, Eq, Structural, Clone, Copy, Debug)]
pub enum SkipReason {
    /// The entry has no identifier, or its identifier is all whitespace.
    MissingGuid,
    MissingTitle,
    MissingDate,
    /// The publication date does not parse in the feed's fixed format.
    BadDate,
    MissingLink,
    MissingDescription,
}

/// The category names of an entry, each with its escaped ampersands
/// resolved.
pub open spec fn unescaped_cats(cats: Seq<Seq<u8>>) -> Seq<Seq<u8>>
    decreases cats.len(),
{
    if cats.len() == 0 {
        seq![]
    } else {
        unescaped_cats(cats.drop_last()).push(unescape_amp(cats.last()))
    }
}

/// What preparing one raw entry yields: the draft to upsert, or the reason
/// the entry is skipped. The external identifier is the first
/// whitespace-delimited token of the entry's identifier field; the
/// publication date must parse in the feed's fixed format; title, link and
/// description are required; the thumbnail is optional; category names are
/// unescaped.
pub open spec fn prepare_spec(e: RawEntryView) -> Result<ItemDraftView, SkipReason> {
    if e.guid is None {
        Err(SkipReason::MissingGuid)
    } else if first_token(e.guid->0).len() == 0 {
        Err(SkipReason::MissingGuid)
    } else if e.title is None {
        Err(SkipReason::MissingTitle)
    } else if e.pub_date is None {
        Err(SkipReason::MissingDate)
    } else if feed_date_of(e.pub_date->0) is None {
        Err(SkipReason::BadDate)
    } else if e.link is None {
        Err(SkipReason::MissingLink)
    } else if e.description is None {
        Err(SkipReason::MissingDescription)
    } else {
        Ok(ItemDraftView {
            external_id: first_token(e.guid->0),
            title: e.title->0,
            description_raw: e.description->0,
            link: e.link->0,
            thumbnail: e.thumbnail,
            categories: unescaped_cats(e.categories),
            published_at: feed_date_of(e.pub_date->0)->0,
        })
    }
}

/// Prepares one raw entry for upserting, or says why it is skipped.
pub fn prepare_entry(e: &RawEntry) -> (r: Result<ItemDraft, SkipReason>)
    ensures
        match r {
            Ok(d) => prepare_spec(e@) is Ok && d@ == prepare_spec(e@)->Ok_0,
            Err(why) => prepare_spec(e@) is Err && why == prepare_spec(e@)->Err_0,
        },
{
    let guid = match &e.guid {
        Some(g) => g,
        None => {
            return Err(SkipReason::MissingGuid);
        },
    };
    let external_id = first_token_exec(guid.as_slice());
    if external_id.len() == 0 {
        return Err(SkipReason::MissingGuid);
    }
    let title = match &e.title {
        Some(t) => crate::model::clone_bytes(t),
        None => {
            return Err(SkipReason::MissingTitle);
        },
    };
    let pub_date = match &e.pub_date {
        Some(p) => p,
        None => {
            return Err(SkipReason::MissingDate);
        },
    };
    let published_at = match parse_feed_date(pub_date.as_slice()) {
        Some(ts) => ts,
        None => {
            return Err(SkipReason::BadDate);
        },
    };
    let link = match &e.link {
        Some(l) => crate::model::clone_bytes(l),
        None => {
            return Err(SkipReason::MissingLink);
        },
    };
    let description = match &e.description {
        Some(d) => crate::model::clone_bytes(d),
        None => {
            return Err(SkipReason::MissingDescription);
        },
    };
    let thumbnail = crate::model::clone_bytes_opt(&e.thumbnail);
    let mut categories: Vec<Vec<u8>> = Vec::new();
    let ghost cv = e.categories.deep_view();
    let mut i: usize = 0;
    while i < e.categories.len()
        invariant
            cv == e.categories.deep_view(),
            cv.len() == e.categories@.len(),
            0 <= i <= cv.len(),
            categories.deep_view() == unescaped_cats(cv.take(i as int)),
        decreases cv.len() - i,
    {
        let ghost pre = categories.deep_view();
        proof {
            assert(cv.take(i + 1).drop_last() =~= cv.take(i as int));
            assert(cv.take(i + 1).last() == cv[i as int]);
            assert(cv[i as int] == e.categories@[i as int]@);
        }
        categories.push(unescape_amp_exec(e.categories[i].as_slice()));
        proof {
            assert(categories.deep_view() =~~= pre.push(unescape_amp(cv[i as int])));
        }
        i = i + 1;
    }
    proof {
        assert(cv.take(cv.len() as int) =~= cv);
    }
    let d = ItemDraft {
        external_id: external_id,
        title: title,
        description_raw: description,
        link: link,
        thumbnail: thumbnail,
        categories: categories,
        published_at: published_at,
    };
    proof {
        assert(d@.categories =~~= prepare_spec(e@)->Ok_0.categories);
        assert(d@ == prepare_spec(e@)->Ok_0);
    }
    Ok(d)
}

/// How many entries preparation skips.
pub open spec fn skipped_count(entries: Seq<RawEntryView>) -> nat
    decreases entries.len(),
{
    if entries.len() == 0 {
        0
    } else {
        skipped_count(entries.drop_last()) + (if prepare_spec(entries.last()) is Err {
            1nat
        } else {
            0nat
        })
    }
}

/// What ingesting a list of entries does to the store's rows and fresh key:
/// each entry that prepares is upserted, in order; skipped entries change
/// nothing.
pub open spec fn ingest_rows(
    rows: Seq<StoredRowView>,
    next_id: u64,
    entries: Seq<RawEntryView>,
) -> (Seq<StoredRowView>, u64)
    decreases entries.len(),
{
    if entries.len() == 0 {
        (rows, next_id)
    } else {
        let prev = ingest_rows(rows, next_id, entries.drop_last());
        match prepare_spec(entries.last()) {
            Ok(d) => (
                rows_after_upsert(prev.0, d, prev.1),
                if find_eid_from(prev.0, d.external_id, 0) >= 0 {
                    prev.1
                } else {
                    (prev.1 + 1) as u64
                },
            ),
            Err(_) => prev,
        }
    }
}

/// Ingests a list of parsed entries: upserts every entry that prepares,
/// skips and counts the rest. No entry resets a notified flag and no entry
/// ever yields a second row for an external identifier already stored.
pub fn ingest_entries(store: &mut ItemStore, entries: &Vec<RawEntry>) -> (skipped: usize)
    requires
        old(store).wf(),
        old(store).next_id + entries@.len() <= u64::MAX,
    ensures
        final(store).wf(),
        final(store)@.rows == ingest_rows(
            old(store)@.rows,
            old(store).next_id,
            entries.deep_view(),
        ).0,
        final(store).next_id == ingest_rows(
            old(store)@.rows,
            old(store).next_id,
            entries.deep_view(),
        ).1,
        final(store)@.audit == old(store)@.audit,
        skipped == skipped_count(entries.deep_view()),
        skipped <= entries@.len(),
    {
        let ghost rows0 = store@.rows;
        let ghost nid0 = store.next_id;
        let ghost ev = entries.deep_view();
        let mut skipped: usize = 0;
        let mut i: usize = 0;
        let n = entries.len();
        while i < n
            invariant
                n == entries.len(),
                ev == entries.deep_view(),
                ev.len() == entries@.len(),
                rows0 == old(store)@.rows,
                nid0 == old(store).next_id,
                nid0 + ev.len() <= u64::MAX,
                0 <= i <= n,
                store.wf(),
                store@.rows == ingest_rows(rows0, nid0, ev.take(i as int)).0,
                store.next_id == ingest_rows(rows0, nid0, ev.take(i as int)).1,
                store.next_id <= nid0 + i,
                store@.audit == old(store)@.audit,
                skipped <= i,
                skipped == skipped_count(ev.take(i as int)),
            decreases n - i,
        {
            proof {
                assert(ev.take(i + 1).drop_last() =~= ev.take(i as int));
                assert(ev.take(i + 1).last() == ev[i as int]);
                assert(ev[i as int] == entries@[i as int]@);
            }
            match prepare_entry(&entries[i]) {
                Ok(d) => {
                    let ghost pre_rows = store@.rows;
                    let ghost pre_nid = store.next_id;
                    proof {
                        crate::store::lemma_find_eid_char(pre_rows, d@.external_id, 0);
                    }
                    store.upsert(d);
                },
                Err(_) => {
                    skipped = skipped + 1;
                },
            }
            i = i + 1;
        }
        proof {
            assert(ev.take(n as int) =~= ev);
        }
        skipped
    }

/// What one poll of the feed produced: nothing new, or the document bytes.
#[derive(Debug)]
pub enum PollOutcome {
    /// The transport reported the feed unchanged since the last poll.
    NotModified,
    /// A fresh feed document.
    Content(Vec<u8>),
}

/// What one ingestor cycle did.
#[derive(PartialEq, Eq, Structural, Clone, Copy, Debug)]
pub struct IngestReport {
    /// Entries upserted into the store.
    pub stored: usize,
    /// Entries skipped for a missing field or a bad date.
    pub skipped: usize,
    /// The document did not parse as a feed (or could not be ingested), and
    /// the store is untouched.
    pub feed_error: bool,
}

/// One ingestor cycle: does nothing when the poll said "not modified",
/// otherwise parses the document and ingests its entries. A document that
/// does not parse leaves the store untouched and is reported; so is the
/// never-reached case of a document with more entries than there are fresh
/// keys left.
pub fn run_ingestor_once(store: &mut ItemStore, poll: PollOutcome) -> (r: IngestReport)
    requires
        old(store).wf(),
    ensures
        final(store).wf(),
        final(store)@.audit == old(store)@.audit,
        match poll {
            PollOutcome::NotModified => final(store)@ == old(store)@ && r == (IngestReport {
                stored: 0,
                skipped: 0,
                feed_error: false,
            }),
            PollOutcome::Content(bytes) => match feed_parse_of(bytes@) {
                None => final(store)@ == old(store)@ && r == (IngestReport {
                    stored: 0,
                    skipped: 0,
                    feed_error: true,
                }),
                Some(es) => if old(store).next_id + es.len() <= u64::MAX {
                    &&& final(store)@.rows == ingest_rows(
                        old(store)@.rows,
                        old(store).next_id,
                        es,
                    ).0
                    &&& final(store).next_id == ingest_rows(
                        old(store)@.rows,
                        old(store).next_id,
                        es,
                    ).1
                    &&& r.skipped == skipped_count(es)
                    &&& r.stored + r.skipped == es.len()
                    &&& !r.feed_error
                } else {
                    final(store)@ == old(store)@ && r == (IngestReport {
                        stored: 0,
                        skipped: 0,
                        feed_error: true,
                    })
                },
            },
        },
{
    match poll {
        PollOutcome::NotModified => {
            IngestReport { stored: 0, skipped: 0, feed_error: false }
        },
        PollOutcome::Content(bytes) => {
            match parse_feed(bytes.as_slice()) {
                None => IngestReport { stored: 0, skipped: 0, feed_error: true },
                Some(entries) => {
                    let n = entries.len();
                    if store.next_id > u64::MAX - (n as u64) {
                        return IngestReport { stored: 0, skipped: 0, feed_error: true };
                    }
                    let skipped = ingest_entries(store, &entries);
                    IngestReport { stored: n - skipped, skipped: skipped, feed_error: false }
                },
            }
        },
    }
}

} // verus!
