//! Byte-level text utilities: ASCII case folding and substring search.
//!
//! All matching in this crate is done on bytes, with ASCII-only case folding,
//! mirroring how keyword comparison is defined for the match engine.

use vstd::prelude::*;

verus! {

/// ASCII lower-casing of a single byte.
pub open spec fn lower_byte(b: u8) -> u8 {
    if 65 <= b <= 90 {
        (b + 32) as u8
    } else {
        b
    }
}

/// ASCII lower-casing of a byte sequence.
pub open spec fn lower_seq(s: Seq<u8>) -> Seq<u8> {
    s.map_values(|b: u8| lower_byte(b))
}

/// `needle` occurs in `hay` starting exactly at index `i`.
pub open spec fn match_at(hay: Seq<u8>, needle: Seq<u8>, i: int) -> bool {
    &&& 0 <= i
    &&& i + needle.len() <= hay.len()
    &&& hay.subrange(i, i + needle.len() as int) == needle
}

/// `needle` occurs somewhere in `hay`; an empty needle occurs in any haystack.
pub open spec fn is_substring(hay: Seq<u8>, needle: Seq<u8>) -> bool {
    exists|i: int| match_at(hay, needle, i)
}

/// ASCII-lower-cases every byte of `v`.
pub fn to_lower(v: &[u8]) -> (r: Vec<u8>)
    ensures
        r@ == lower_seq(v@),
{
    let mut r: Vec<u8> = Vec::new();
    let mut i: usize = 0;
    while i < v.len()
        invariant
            0 <= i <= v.len(),
            r@ == lower_seq(v@.take(i as int)),
        decreases v.len() - i,
    {
        let b = v[i];
        let lb: u8 = if 65 <= b && b <= 90 {
            b + 32
        } else {
            b
        };
        r.push(lb);
        i = i + 1;
        assert(r@ =~= lower_seq(v@.take(i as int)));
    }
    assert(v@.take(v@.len() as int) =~= v@);
    r
}

/// Finds the least index at which `needle` occurs in `hay`, if any.
pub fn find_sub(hay: &[u8], needle: &[u8]) -> (r: Option<usize>)
    ensures
        match r {
            Some(i) => match_at(hay@, needle@, i as int) && forall|k: int|
                0 <= k < i ==> !match_at(hay@, needle@, k),
            None => forall|k: int| !match_at(hay@, needle@, k),
        },
{
    if needle.len() > hay.len() {
        return None;
    }
    if needle.len() == 0 {
        assert(hay@.subrange(0, 0) =~= needle@);
        return Some(0);
    }
    let mut i: usize = 0;
    while i <= hay.len() - needle.len()
        invariant
            1 <= needle.len() <= hay.len(),
            0 <= i <= hay.len() - needle.len() + 1,
            forall|k: int| 0 <= k < i ==> !match_at(hay@, needle@, k),
        decreases hay.len() - needle.len() + 1 - i,
    {
        let mut j: usize = 0;
        while j < needle.len() && hay[i + j] == needle[j]
            invariant
                1 <= needle.len() <= hay.len(),
                0 <= i <= hay.len() - needle.len(),
                0 <= j <= needle.len(),
                forall|m: int| 0 <= m < j ==> hay@[i + m] == needle@[m],
            decreases needle.len() - j,
        {
            j = j + 1;
        }
        if j == needle.len() {
            assert(hay@.subrange(i as int, i + needle@.len() as int) =~= needle@);
            return Some(i);
        }
        assert(!match_at(hay@, needle@, i as int)) by {
            assert(hay@[i + j] != needle@[j as int]);
            assert(match_at(hay@, needle@, i as int) ==> hay@.subrange(
                i as int,
                i + needle@.len() as int,
            )[j as int] == needle@[j as int]);
        }
        i = i + 1;
    }
    assert forall|k: int| !match_at(hay@, needle@, k) by {
        if 0 <= k && k + needle@.len() <= hay@.len() {
            assert(k < i);
        }
    }
    None
}

/// Whether `needle` occurs in `hay`.
pub fn contains_sub(hay: &[u8], needle: &[u8]) -> (r: bool)
    ensures
        r == is_substring(hay@, needle@),
{
    let r = find_sub(hay, needle);
    match r {
        Some(i) => {
            assert(is_substring(hay@, needle@));
            true
        },
        None => {
            assert(!is_substring(hay@, needle@));
            false
        },
    }
}

} // verus!
