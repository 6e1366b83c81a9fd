//! ASCII text handling: lexicographic ordering of byte strings, case
//! folding, substring search, and conversion of ASCII byte strings to
//! `String` for display.

use vstd::prelude::*;

verus! {

/// Strict lexicographic order on byte strings: byte-wise, with a proper
/// prefix ordered before its extensions.
pub open spec fn lex_lt(a: Seq<u8>, b: Seq<u8>) -> bool
    decreases a.len(),
{
    if b.len() == 0 {
        false
    } else if a.len() == 0 {
        true
    } else if a[0] < b[0] {
        true
    } else if a[0] > b[0] {
        false
    } else {
        lex_lt(a.skip(1), b.skip(1))
    }
}

pub proof fn lemma_lex_irreflexive(a: Seq<u8>)
    ensures
        !lex_lt(a, a),
    decreases a.len(),
{
    if a.len() > 0 {
        lemma_lex_irreflexive(a.skip(1));
    }
}

/// Of two distinct byte strings, exactly one is lexicographically smaller.
pub proof fn lemma_lex_total(a: Seq<u8>, b: Seq<u8>)
    requires
        a != b,
    ensures
        lex_lt(a, b) != lex_lt(b, a),
    decreases a.len(),
{
    if a.len() == 0 {
        if b.len() == 0 {
            assert(a =~= b);
        }
    } else if b.len() == 0 {
    } else if a[0] == b[0] {
        if a.skip(1) == b.skip(1) {
            assert(a.skip(1).len() == b.skip(1).len());
            assert(a.len() == b.len());
            assert forall|i: int| 0 <= i < a.len() implies a[i] == b[i] by {
                if i >= 1 {
                    assert(a.skip(1).len() == a.len() - 1);
                    assert(a.skip(1)[i - 1] == a[i]);
                    assert(a.skip(1)[i - 1] == b.skip(1)[i - 1]);
                    assert(b.skip(1)[i - 1] == b[i]);
                }
            }
            assert(a =~= b);
        } else {
            lemma_lex_total(a.skip(1), b.skip(1));
        }
    }
}

pub proof fn lemma_lex_transitive(a: Seq<u8>, b: Seq<u8>, c: Seq<u8>)
    requires
        lex_lt(a, b),
        lex_lt(b, c),
    ensures
        lex_lt(a, c),
    decreases a.len(),
{
    if a.len() == 0 {
    } else if b.len() > 0 && c.len() > 0 && a[0] == b[0] && b[0] == c[0] {
        lemma_lex_transitive(a.skip(1), b.skip(1), c.skip(1));
    }
}

/// Byte-wise comparison decides the lexicographic order.
pub fn lex_less(a: &Vec<u8>, b: &Vec<u8>) -> (r: bool)
    ensures
        r == lex_lt(a@, b@),
{
    let mut i: usize = 0;
    proof {
        assert(a@.skip(0) =~= a@);
        assert(b@.skip(0) =~= b@);
    }
    loop
        invariant
            i <= a.len(),
            i <= b.len(),
            lex_lt(a@, b@) == lex_lt(a@.skip(i as int), b@.skip(i as int)),
        decreases a.len() - i,
    {
        if i == b.len() {
            return false;
        }
        if i == a.len() {
            return true;
        }
        let x = a[i];
        let y = b[i];
        if x < y {
            return true;
        }
        if x > y {
            return false;
        }
        proof {
            assert(a@.skip(i as int).skip(1) =~= a@.skip(i + 1));
            assert(b@.skip(i as int).skip(1) =~= b@.skip(i + 1));
        }
        i = i + 1;
    }
}

/// ASCII lower-casing of one byte; bytes outside `A`..`Z` are unchanged.
pub open spec fn lower_byte(b: u8) -> u8 {
    if 65 <= b && b <= 90 {
        (b + 32) as u8
    } else {
        b
    }
}

/// ASCII lower-casing of a byte string.
pub open spec fn lower(s: Seq<u8>) -> Seq<u8> {
    s.map(|_i: int, b: u8| lower_byte(b))
}

pub fn lower_byte_exec(b: u8) -> (r: u8)
    ensures
        r == lower_byte(b),
{
    if 65 <= b && b <= 90 {
        b + 32
    } else {
        b
    }
}

/// The needle occurs in the haystack starting at position `i`.
pub open spec fn match_at(hay: Seq<u8>, needle: Seq<u8>, i: int) -> bool {
    &&& 0 <= i
    &&& i + needle.len() <= hay.len()
    &&& forall|j: int| 0 <= j < needle.len() ==> hay[i + j] == needle[j]
}

/// The needle occurs somewhere in the haystack.
pub open spec fn contains_seq(hay: Seq<u8>, needle: Seq<u8>) -> bool {
    exists|i: int| match_at(hay, needle, i)
}

/// The case-insensitive substring test behind the search filter.
pub open spec fn search_matches(hay: Seq<u8>, needle: Seq<u8>) -> bool {
    contains_seq(lower(hay), lower(needle))
}

/// Case-insensitive substring search, byte-wise over ASCII.
pub fn contains_lower(hay: &Vec<u8>, needle: &Vec<u8>) -> (r: bool)
    ensures
        r == search_matches(hay@, needle@),
{
    let h = hay.len();
    let n = needle.len();
    if n > h {
        proof {
            assert(forall|i: int| !match_at(lower(hay@), lower(needle@), i));
        }
        return false;
    }
    let mut i: usize = 0;
    loop
        invariant
            n == needle.len(),
            h == hay.len(),
            n <= h,
            i <= h - n + 1,
            forall|p: int| 0 <= p < i ==> !match_at(lower(hay@), lower(needle@), p),
        decreases h - n + 1 - i,
    {
        if i > h - n {
            proof {
                assert(forall|p: int|
                    match_at(lower(hay@), lower(needle@), p) ==> 0 <= p <= h - n);
            }
            return false;
        }
        let mut j: usize = 0;
        let mut hit = true;
        while j < n
            invariant
                n == needle.len(),
                h == hay.len(),
                i + n <= h,
                j <= n,
                hit ==> forall|q: int|
                    0 <= q < j ==> lower(hay@)[i + q] == lower(needle@)[q],
                !hit ==> !match_at(lower(hay@), lower(needle@), i as int),
            decreases n - j,
        {
            if lower_byte_exec(hay[i + j]) != lower_byte_exec(needle[j]) {
                proof {
                    assert(lower(hay@)[i + j] == lower_byte(hay@[i + j]));
                    assert(lower(needle@)[j as int] == lower_byte(needle@[j as int]));
                }
                hit = false;
            }
            j = j + 1;
        }
        if hit {
            proof {
                assert(match_at(lower(hay@), lower(needle@), i as int));
            }
            return true;
        }
        i = i + 1;
    }
}

/// The characters of an ASCII byte string, one per byte.
pub open spec fn chars_of(s: Seq<u8>) -> Seq<char> {
    s.map(|_i: int, b: u8| b as char)
}

/// All bytes below 128, so that the string's characters are the bytes.
pub open spec fn is_ascii_bytes(s: Seq<u8>) -> bool {
    forall|i: int| 0 <= i < s.len() ==> s[i] < 128
}

/// Joining ASCII byte strings yields an ASCII byte string.
pub proof fn lemma_ascii_concat(a: Seq<u8>, b: Seq<u8>)
    requires
        is_ascii_bytes(a),
        is_ascii_bytes(b),
    ensures
        is_ascii_bytes(a + b),
{
    assert forall|i: int| 0 <= i < (a + b).len() implies (a + b)[i] < 128 by {
        if i < a.len() {
            assert((a + b)[i] == a[i]);
        } else {
            assert((a + b)[i] == b[i - a.len()]);
        }
    }
}

/// Relies on `String::from_utf8`: ASCII bytes are valid UTF-8 and decode
/// to exactly one character per byte, each the byte's own code point.
#[verifier::external_body]
pub fn ascii_to_string(v: &Vec<u8>) -> (r: String)
    requires
        is_ascii_bytes(v@),
    ensures
        r@ == chars_of(v@),
{
    String::from_utf8(v.clone()).unwrap_or_default()
}

} // verus!
