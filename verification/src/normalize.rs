//! Markup-to-text normalization for item descriptions.
//!
//! An item's raw description may carry markup. For matching, it is reduced to
//! plain text: every image tag contributes its `alt="..."` attribute value
//! (nothing when the attribute is absent), every other tag contributes
//! nothing, and the text runs between tags are kept. The non-empty fragments
//! are joined in document order, separated by single newlines. When the input
//! cannot be scanned (a tag is opened and never closed), the raw input is
//! returned unchanged, so normalization never fails its caller.

use vstd::prelude::*;
use crate::text::{lower_seq, match_at, find_sub};

verus! {

/// `<`, which opens a tag.
pub const TAG_OPEN: u8 = 60;

/// `>`, which closes a tag.
pub const TAG_CLOSE: u8 = 62;

/// The separator placed between text fragments.
pub const NEWLINE: u8 = 10;

/// `"`, which delimits an attribute value.
pub const QUOTE: u8 = 34;

/// The least index `k >= i` with `s[k] == b`, or `s.len()` when there is none.
pub open spec fn find_byte_from(s: Seq<u8>, b: u8, i: int) -> int
    decreases s.len() - i
    when 0 <= i <= s.len()
{
    if i >= s.len() {
        s.len() as int
    } else if s[i] == b {
        i
    } else {
        find_byte_from(s, b, i + 1)
    }
}

pub proof fn lemma_find_byte_bounds(s: Seq<u8>, b: u8, i: int)
    requires
        0 <= i <= s.len(),
    ensures
        i <= find_byte_from(s, b, i) <= s.len(),
        find_byte_from(s, b, i) < s.len() ==> s[find_byte_from(s, b, i)] == b,
        forall|k: int| i <= k < find_byte_from(s, b, i) ==> s[k] != b,
    decreases s.len() - i,
{
    if i < s.len() && s[i] != b {
        lemma_find_byte_bounds(s, b, i + 1);
    }
}

/// A byte that ends a tag name: ASCII whitespace or `/`.
pub open spec fn is_name_end(b: u8) -> bool {
    b == 32 || b == 9 || b == 10 || b == 13 || b == 12 || b == 47
}

/// The least index `k >= i` at which a name-ending byte stands, or `s.len()`.
pub open spec fn find_name_end_from(s: Seq<u8>, i: int) -> int
    decreases s.len() - i
    when 0 <= i <= s.len()
{
    if i >= s.len() {
        s.len() as int
    } else if is_name_end(s[i]) {
        i
    } else {
        find_name_end_from(s, i + 1)
    }
}

pub proof fn lemma_find_name_end_bounds(s: Seq<u8>, i: int)
    requires
        0 <= i <= s.len(),
    ensures
        i <= find_name_end_from(s, i) <= s.len(),
        forall|k: int| i <= k < find_name_end_from(s, i) ==> !is_name_end(s[k]),
    decreases s.len() - i,
{
    if i < s.len() && !is_name_end(s[i]) {
        lemma_find_name_end_bounds(s, i + 1);
    }
}

/// The least index `k >= i` at which `needle` occurs in `hay`, or `-1`.
pub open spec fn find_sub_from(hay: Seq<u8>, needle: Seq<u8>, i: int) -> int
    decreases hay.len() + 1 - i
    when 0 <= i
{
    if i + needle.len() > hay.len() {
        -1
    } else if match_at(hay, needle, i) {
        i
    } else {
        find_sub_from(hay, needle, i + 1)
    }
}

pub proof fn lemma_find_sub_from_char(hay: Seq<u8>, needle: Seq<u8>, i: int)
    requires
        0 <= i,
    ensures
        find_sub_from(hay, needle, i) == -1 || find_sub_from(hay, needle, i) >= i,
        find_sub_from(hay, needle, i) == -1 ==> forall|k: int|
            k >= i ==> !match_at(hay, needle, k),
        find_sub_from(hay, needle, i) >= 0 ==> i <= find_sub_from(hay, needle, i)
            && match_at(hay, needle, find_sub_from(hay, needle, i)) && forall|k: int|
            i <= k < find_sub_from(hay, needle, i) ==> !match_at(hay, needle, k),
    decreases hay.len() + 1 - i,
{
    if i + needle.len() > hay.len() {
        assert forall|k: int| k >= i implies !match_at(hay, needle, k) by {}
    } else if match_at(hay, needle, i) {
    } else {
        lemma_find_sub_from_char(hay, needle, i + 1);
    }
}

/// The name of a tag: its content up to the first whitespace or `/`.
pub open spec fn tag_name(tag: Seq<u8>) -> Seq<u8> {
    tag.take(find_name_end_from(tag, 0))
}

/// The three bytes of `img`.
pub open spec fn img_name() -> Seq<u8> {
    seq![105u8, 109u8, 103u8]
}

/// Whether a tag is an image tag: its name case-folds to `img`.
pub open spec fn is_img_tag(tag: Seq<u8>) -> bool {
    lower_seq(tag_name(tag)) == img_name()
}

/// The five bytes of `alt="`.
pub open spec fn alt_pat() -> Seq<u8> {
    seq![97u8, 108u8, 116u8, 61u8, 34u8]
}

/// The alternative text of an image tag: the bytes between the first
/// `alt="` and the next `"`, or to the end of the tag when the quote is
/// never closed; empty when the attribute is absent.
pub open spec fn alt_value(tag: Seq<u8>) -> Seq<u8> {
    let p = find_sub_from(tag, alt_pat(), 0);
    if p < 0 {
        seq![]
    } else {
        let q = find_byte_from(tag, QUOTE, p + 5);
        tag.subrange(p + 5, q)
    }
}

/// Whether scanning from `i` (outside any tag) succeeds: every tag that is
/// opened is later closed.
pub open spec fn parse_ok_from(s: Seq<u8>, i: int) -> bool
    decreases s.len() - i
    when 0 <= i <= s.len()
{
    if i >= s.len() {
        true
    } else if s[i] == TAG_OPEN {
        proof {
            lemma_find_byte_bounds(s, TAG_CLOSE, i + 1);
        }
        let j = find_byte_from(s, TAG_CLOSE, i + 1);
        if j >= s.len() {
            false
        } else {
            parse_ok_from(s, j + 1)
        }
    } else {
        proof {
            lemma_find_byte_bounds(s, TAG_OPEN, i + 1);
        }
        parse_ok_from(s, find_byte_from(s, TAG_OPEN, i + 1))
    }
}

/// Whether the whole input can be scanned.
pub open spec fn parse_ok(s: Seq<u8>) -> bool {
    parse_ok_from(s, 0)
}

/// The text fragments of `s` from position `i` on, in document order: text
/// runs as they stand, image tags as their alternative text, other tags as
/// nothing.
pub open spec fn fragments_from(s: Seq<u8>, i: int) -> Seq<Seq<u8>>
    decreases s.len() - i
    when 0 <= i <= s.len()
{
    if i >= s.len() {
        seq![]
    } else if s[i] == TAG_OPEN {
        proof {
            lemma_find_byte_bounds(s, TAG_CLOSE, i + 1);
        }
        let j = find_byte_from(s, TAG_CLOSE, i + 1);
        if j >= s.len() {
            seq![]
        } else {
            let tag = s.subrange(i + 1, j);
            if is_img_tag(tag) {
                seq![alt_value(tag)] + fragments_from(s, j + 1)
            } else {
                fragments_from(s, j + 1)
            }
        }
    } else {
        proof {
            lemma_find_byte_bounds(s, TAG_OPEN, i + 1);
        }
        let j = find_byte_from(s, TAG_OPEN, i + 1);
        seq![s.subrange(i, j)] + fragments_from(s, j)
    }
}

/// Joins the non-empty fragments with single newlines, in order.
pub open spec fn join_fragments(frs: Seq<Seq<u8>>) -> Seq<u8>
    decreases frs.len(),
{
    if frs.len() == 0 {
        seq![]
    } else {
        let init = join_fragments(frs.drop_last());
        let last = frs.last();
        if last.len() == 0 {
            init
        } else if init.len() == 0 {
            last
        } else {
            init + seq![NEWLINE] + last
        }
    }
}

/// What normalization returns: the joined fragments when the input scans,
/// the raw input unchanged when it does not.
pub open spec fn normalize_seq(s: Seq<u8>) -> Seq<u8> {
    if parse_ok(s) {
        join_fragments(fragments_from(s, 0))
    } else {
        s
    }
}

/// Copies `s[a..b]` into a fresh vector.
pub fn copy_range(s: &[u8], a: usize, b: usize) -> (r: Vec<u8>)
    requires
        a <= b <= s@.len(),
    ensures
        r@ == s@.subrange(a as int, b as int),
{
    let mut r: Vec<u8> = Vec::new();
    let mut k: usize = a;
    while k < b
        invariant
            a <= k <= b <= s@.len(),
            r@ == s@.subrange(a as int, k as int),
        decreases b - k,
    {
        r.push(s[k]);
        k = k + 1;
        assert(r@ =~= s@.subrange(a as int, k as int));
    }
    r
}

/// Appends all of `src` to `out`.
pub fn append_bytes(out: &mut Vec<u8>, src: &[u8])
    ensures
        final(out)@ == old(out)@ + src@,
{
    let mut k: usize = 0;
    while k < src.len()
        invariant
            0 <= k <= src@.len(),
            out@ == old(out)@ + src@.take(k as int),
        decreases src@.len() - k,
    {
        out.push(src[k]);
        k = k + 1;
        assert(out@ =~= old(out)@ + src@.take(k as int));
    }
    assert(out@ =~= old(out)@ + src@);
}

/// Finds the least index `k >= from` with `s[k] == b`, or `s.len()`.
pub fn find_byte(s: &[u8], b: u8, from: usize) -> (r: usize)
    requires
        from <= s@.len(),
    ensures
        r == find_byte_from(s@, b, from as int),
        from <= r <= s@.len(),
        r < s@.len() ==> s@[r as int] == b,
{
    proof {
        lemma_find_byte_bounds(s@, b, from as int);
    }
    let mut k: usize = from;
    while k < s.len()
        invariant
            from <= k <= s@.len(),
            find_byte_from(s@, b, from as int) == find_byte_from(s@, b, k as int),
        decreases s@.len() - k,
    {
        if s[k] == b {
            assert(find_byte_from(s@, b, k as int) == k);
            return k;
        }
        assert(find_byte_from(s@, b, k as int) == find_byte_from(s@, b, k + 1));
        k = k + 1;
    }
    assert(find_byte_from(s@, b, k as int) == s@.len());
    k
}

/// Whether the content of a tag names an image tag.
fn is_img_tag_exec(tag: &[u8]) -> (r: bool)
    ensures
        r == is_img_tag(tag@),
{
    proof {
        lemma_find_name_end_bounds(tag@, 0);
    }
    let mut e: usize = 0;
    while e < tag.len() && !(tag[e] == 32 || tag[e] == 9 || tag[e] == 10 || tag[e] == 13
        || tag[e] == 12 || tag[e] == 47)
        invariant
            0 <= e <= tag@.len(),
            find_name_end_from(tag@, 0) == find_name_end_from(tag@, e as int),
        decreases tag@.len() - e,
    {
        assert(find_name_end_from(tag@, e as int) == find_name_end_from(tag@, e + 1));
        e = e + 1;
    }
    assert(find_name_end_from(tag@, e as int) == e);
    assert(lower_seq(tag_name(tag@)).len() == e);
    if e != 3 {
        return false;
    }
    let ok = lower_byte_exec(tag[0]) == 105 && lower_byte_exec(tag[1]) == 109 && lower_byte_exec(
        tag[2],
    ) == 103;
    proof {
        if ok {
            assert(lower_seq(tag_name(tag@)) =~= img_name());
        } else {
            assert(lower_seq(tag_name(tag@)) != img_name());
        }
    }
    ok
}

/// ASCII-lower-cases one byte.
fn lower_byte_exec(b: u8) -> (r: u8)
    ensures
        r == crate::text::lower_byte(b),
{
    if 65 <= b && b <= 90 {
        b + 32
    } else {
        b
    }
}

/// Extracts the alternative text from the content of an image tag.
fn alt_value_exec(tag: &[u8]) -> (r: Vec<u8>)
    ensures
        r@ == alt_value(tag@),
{
    let mut pat: Vec<u8> = Vec::new();
    pat.push(97);
    pat.push(108);
    pat.push(116);
    pat.push(61);
    pat.push(34);
    assert(pat@ =~= alt_pat());
    match find_sub(tag, pat.as_slice()) {
        Some(p) => {
            let n: usize = tag.len();
            proof {
                // the least-match characterizations on both sides pin them to each other
                lemma_find_sub_from_char(tag@, pat@, 0);
                let r = find_sub_from(tag@, pat@, 0);
                if r == -1 {
                    assert(!match_at(tag@, pat@, p as int));
                } else if r < p {
                    assert(match_at(tag@, pat@, r));
                    assert(!match_at(tag@, pat@, r));
                } else if r > p {
                    assert(!match_at(tag@, pat@, p as int));
                    assert(match_at(tag@, pat@, p as int));
                }
                assert(r == p);
                assert(find_sub_from(tag@, alt_pat(), 0) == p);
                assert(pat@.len() == 5);
                assert(p + 5 <= n);
                lemma_find_byte_bounds(tag@, QUOTE, p + 5);
            }
            let q = find_byte(tag, QUOTE, p + 5);
            copy_range(tag, p + 5, q)
        },
        None => {
            proof {
                lemma_find_sub_from_char(tag@, pat@, 0);
                let r = find_sub_from(tag@, pat@, 0);
                if r >= 0 {
                    assert(match_at(tag@, pat@, r));
                    assert(!match_at(tag@, pat@, r));
                }
                assert(find_sub_from(tag@, alt_pat(), 0) == -1);
            }
            let r: Vec<u8> = Vec::new();
            assert(r@ =~= alt_value(tag@));
            r
        },
    }
}

/// Reduces markup to plain text: image tags become their alternative text,
/// other tags vanish, text runs are kept, and the non-empty fragments are
/// joined with newlines. Input that cannot be scanned comes back unchanged.
pub fn normalize(html: &[u8]) -> (r: Vec<u8>)
    ensures
        r@ == normalize_seq(html@),
{
    let ghost s = html@;
    let mut frags: Vec<Vec<u8>> = Vec::new();
    let mut i: usize = 0;
    while i < html.len()
        invariant
            0 <= i <= s.len(),
            s == html@,
            parse_ok(s) == parse_ok_from(s, i as int),
            parse_ok(s) ==> fragments_from(s, 0) == frags.deep_view() + fragments_from(
                s,
                i as int,
            ),
        decreases s.len() - i,
    {
        let ghost old_dv = frags.deep_view();
        if html[i] == TAG_OPEN {
            let j = find_byte(html, TAG_CLOSE, i + 1);
            if j == html.len() {
                assert(!parse_ok_from(s, i as int));
                let raw = copy_range(html, 0, html.len());
                assert(raw@ =~= s);
                return raw;
            }
            let tag = copy_range(html, i + 1, j);
            let ghost stag = s.subrange(i + 1, j as int);
            if is_img_tag_exec(tag.as_slice()) {
                let alt = alt_value_exec(tag.as_slice());
                assert(fragments_from(s, i as int) == seq![alt_value(stag)] + fragments_from(
                    s,
                    j + 1,
                ));
                frags.push(alt);
                proof {
                    assert(frags.deep_view() =~~= old_dv.push(alt_value(stag)));
                    if parse_ok(s) {
                        assert(fragments_from(s, 0) =~~= frags.deep_view() + fragments_from(
                            s,
                            j + 1,
                        ));
                    }
                }
            } else {
                assert(fragments_from(s, i as int) == fragments_from(s, j + 1));
            }
            assert(parse_ok_from(s, i as int) == parse_ok_from(s, j + 1));
            i = j + 1;
        } else {
            let j = find_byte(html, TAG_OPEN, i + 1);
            assert(fragments_from(s, i as int) == seq![s.subrange(i as int, j as int)]
                + fragments_from(s, j as int));
            assert(parse_ok_from(s, i as int) == parse_ok_from(s, j as int));
            let run = copy_range(html, i, j);
            frags.push(run);
            proof {
                assert(frags.deep_view() =~~= old_dv.push(s.subrange(i as int, j as int)));
                if parse_ok(s) {
                    assert(fragments_from(s, 0) =~~= frags.deep_view() + fragments_from(
                        s,
                        j as int,
                    ));
                }
            }
            i = j;
        }
    }
    assert(parse_ok_from(s, i as int));
    assert(fragments_from(s, i as int) =~= Seq::<Seq<u8>>::empty());
    assert(fragments_from(s, 0) =~~= frags.deep_view());
    let ghost dv = frags.deep_view();
    let mut out: Vec<u8> = Vec::new();
    let mut k: usize = 0;
    while k < frags.len()
        invariant
            0 <= k <= frags.len(),
            dv == frags.deep_view(),
            dv.len() == frags.len(),
            out@ == join_fragments(dv.take(k as int)),
        decreases frags.len() - k,
    {
        proof {
            assert(dv.take(k + 1).drop_last() =~~= dv.take(k as int));
            assert(dv.take(k + 1).last() == dv[k as int]);
            assert(frags@[k as int].deep_view() =~= frags@[k as int]@);
        }
        if frags[k].len() > 0 {
            if out.len() > 0 {
                out.push(NEWLINE);
                assert(out@ =~= join_fragments(dv.take(k as int)) + seq![NEWLINE]);
            }
            let f: &Vec<u8> = &frags[k];
            append_bytes(&mut out, f.as_slice());
            assert(out@ =~= join_fragments(dv.take(k + 1)));
        } else {
            assert(out@ == join_fragments(dv.take(k + 1)));
        }
        k = k + 1;
    }
    assert(dv.take(k as int) =~~= dv);
    assert(out@ == normalize_seq(s));
    out
}

/// Law: normalizing text that contains no markup returns it unchanged.
pub proof fn lemma_normalize_plain(s: Seq<u8>)
    requires
        forall|i: int| 0 <= i < s.len() ==> s[i] != TAG_OPEN,
    ensures
        normalize_seq(s) == s,
{
    if s.len() == 0 {
        assert(parse_ok_from(s, 0));
        assert(normalize_seq(s) =~= s);
    } else {
        lemma_find_byte_bounds(s, TAG_OPEN, 1);
        assert(find_byte_from(s, TAG_OPEN, 1) == s.len());
        assert(parse_ok_from(s, s.len() as int));
        assert(parse_ok_from(s, 0));
        assert(fragments_from(s, s.len() as int) =~= Seq::<Seq<u8>>::empty());
        let whole = s.subrange(0, s.len() as int);
        assert(whole =~= s);
        let frs = fragments_from(s, 0);
        assert(frs == seq![whole] + fragments_from(s, s.len() as int));
        assert(frs =~~= seq![s]);
        assert(frs.drop_last() =~~= Seq::<Seq<u8>>::empty());
        assert(join_fragments(frs.drop_last()) =~= Seq::<u8>::empty());
        assert(frs.last() == s);
        assert(join_fragments(frs) == s);
    }
}

} // verus!
