//! The 4-byte little-endian signed word.
//!
//! Both length fields of the wire layout — the allocation header that
//! precedes every block, and the element count that precedes the data of a
//! variable-length array — are one such word. This module gives the word a
//! mathematical reading and writing, and proves that they invert each other.

use vstd::prelude::*;
use vstd::arithmetic::div_mod::{lemma_div_denominator, lemma_fundamental_div_mod, lemma_mod_bound};

verus! {

/// The unsigned value of the four little-endian bytes of `b` starting at `a`.
pub open spec fn le_word(b: Seq<u8>, a: int) -> int
    recommends
        0 <= a,
        a + 4 <= b.len(),
{
    b[a] + 0x100 * b[a + 1] + 0x1_0000 * b[a + 2] + 0x100_0000 * b[a + 3]
}

/// Reads an unsigned 32-bit value as a signed (two's complement) one.
pub open spec fn as_signed(u: int) -> int
    recommends
        0 <= u < 0x1_0000_0000,
{
    if u < 0x8000_0000 {
        u
    } else {
        u - 0x1_0000_0000
    }
}

/// Reads a signed 32-bit value as an unsigned (two's complement) one.
pub open spec fn as_unsigned(v: int) -> int
    recommends
        -0x8000_0000 <= v < 0x8000_0000,
{
    if v >= 0 {
        v
    } else {
        v + 0x1_0000_0000
    }
}

/// The signed value of the four little-endian bytes of `b` starting at `a`.
pub open spec fn le_word_signed(b: Seq<u8>, a: int) -> int
    recommends
        0 <= a,
        a + 4 <= b.len(),
{
    as_signed(le_word(b, a))
}

/// The four little-endian bytes that spell the signed value `v`.
pub open spec fn word_bytes(v: int) -> Seq<u8>
    recommends
        -0x8000_0000 <= v < 0x8000_0000,
{
    let u = as_unsigned(v);
    seq![
        (u % 0x100) as u8,
        ((u / 0x100) % 0x100) as u8,
        ((u / 0x1_0000) % 0x100) as u8,
        (u / 0x100_0000) as u8,
    ]
}

/// `b` with the four bytes spelling the signed value `v` written at `a`.
pub open spec fn store_word(b: Seq<u8>, a: int, v: int) -> Seq<u8>
    recommends
        0 <= a,
        a + 4 <= b.len(),
        -0x8000_0000 <= v < 0x8000_0000,
{
    let w = word_bytes(v);
    b.update(a, w[0]).update(a + 1, w[1]).update(a + 2, w[2]).update(a + 3, w[3])
}

/// Splitting an unsigned 32-bit value into its four little-endian bytes and
/// reassembling them yields the value back.
pub proof fn lemma_word_split(u: int)
    requires
        0 <= u < 0x1_0000_0000,
    ensures
        0 <= u % 0x100 < 0x100,
        0 <= (u / 0x100) % 0x100 < 0x100,
        0 <= (u / 0x1_0000) % 0x100 < 0x100,
        0 <= u / 0x100_0000 < 0x100,
        u == u % 0x100 + 0x100 * ((u / 0x100) % 0x100) + 0x1_0000 * ((u / 0x1_0000) % 0x100)
            + 0x100_0000 * (u / 0x100_0000),
{
    lemma_mod_bound(u, 0x100);
    lemma_mod_bound(u / 0x100, 0x100);
    lemma_mod_bound(u / 0x1_0000, 0x100);
    lemma_fundamental_div_mod(u, 0x100);
    lemma_fundamental_div_mod(u / 0x100, 0x100);
    lemma_fundamental_div_mod(u / 0x1_0000, 0x100);
    lemma_div_denominator(u, 0x100, 0x100);
    lemma_div_denominator(u, 0x1_0000, 0x100);
    assert(0 <= u / 0x100_0000 < 0x100) by {
        assert(u / 0x100_0000 >= 0) by (nonlinear_arith)
            requires 0 <= u;
        assert(u / 0x100_0000 < 0x100) by (nonlinear_arith)
            requires u < 0x1_0000_0000;
    }
}

/// Writing a signed word and reading it back yields the value written, and
/// leaves every other byte as it was.
pub proof fn lemma_store_word_round_trip(b: Seq<u8>, a: int, v: int)
    requires
        0 <= a,
        a + 4 <= b.len(),
        -0x8000_0000 <= v < 0x8000_0000,
    ensures
        store_word(b, a, v).len() == b.len(),
        le_word_signed(store_word(b, a, v), a) == v,
        forall|i: int| 0 <= i < b.len() && !(a <= i < a + 4) ==> store_word(b, a, v)[i] == b[i],
{
    let u = as_unsigned(v);
    lemma_word_split(u);
    let s = store_word(b, a, v);
    assert(le_word(s, a) == u);
}

} // verus!
