//! Byte layout of a channel block: six little-endian 32-bit header words,
//! then the upstream region, then the downstream region.

use vstd::prelude::*;

verus! {

/// Sentinel an external scanner looks for to find a channel.
pub const STLINKY_MAGIC: u32 = 0xdeadf00d;

/// Size of the header in bytes.
pub const HEADER_SIZE: usize = 24;

pub const MAGIC_OFFSET: usize = 0;

pub const BUF_SIZE_OFFSET: usize = 4;

pub const UP_TAIL_OFFSET: usize = 8;

pub const UP_HEAD_OFFSET: usize = 12;

pub const DW_TAIL_OFFSET: usize = 16;

pub const DW_HEAD_OFFSET: usize = 20;

/// The little-endian 32-bit word stored at `b[off..off + 4]`.
pub open spec fn word_at(b: Seq<u8>, off: int) -> int {
    b[off] + 256 * b[off + 1] + 65536 * b[off + 2] + 16777216 * b[off + 3]
}

/// `b` with the little-endian bytes of `v` at `off..off + 4`.
pub open spec fn with_word(b: Seq<u8>, off: int, v: u32) -> Seq<u8> {
    b.update(off, (v % 256) as u8).update(off + 1, ((v / 256) % 256) as u8).update(
        off + 2,
        ((v / 65536) % 256) as u8,
    ).update(off + 3, (v / 16777216) as u8)
}

/// The four bytes of a word give it back, and a word gives back its bytes.
pub proof fn lemma_word_round_trip(b: Seq<u8>, off: int, v: u32)
    requires
        0 <= off,
        off + 4 <= b.len(),
    ensures
        word_at(with_word(b, off, v), off) == v,
        v == word_at(b, off) ==> with_word(b, off, v) == b,
{
    let w = with_word(b, off, v);
    assert(w[off] == v % 256);
    assert(w[off + 1] == (v / 256) % 256);
    assert(w[off + 2] == (v / 65536) % 256);
    assert(w[off + 3] == v / 16777216);
    assert(v == v % 256 + 256 * ((v / 256) % 256) + 65536 * ((v / 65536) % 256) + 16777216 * (
    v / 16777216)) by (nonlinear_arith);
    if v == word_at(b, off) {
        let b0 = b[off] as int;
        let b1 = b[off + 1] as int;
        let b2 = b[off + 2] as int;
        let b3 = b[off + 3] as int;
        assert(v % 256 == b0 && (v / 256) % 256 == b1 && (v / 65536) % 256 == b2 && v / 16777216
            == b3) by (nonlinear_arith)
            requires
                v == b0 + 256 * b1 + 65536 * b2 + 16777216 * b3,
                0 <= b0 < 256,
                0 <= b1 < 256,
                0 <= b2 < 256,
                0 <= b3 < 256,
        ;
        assert(w =~= b);
    }
}

/// Storing a word leaves the length and every word that does not overlap it.
pub proof fn lemma_word_frame(b: Seq<u8>, off: int, v: u32, other: int)
    requires
        0 <= off,
        off + 4 <= b.len(),
        0 <= other,
        other + 4 <= b.len(),
        other + 4 <= off || off + 4 <= other,
    ensures
        with_word(b, off, v).len() == b.len(),
        word_at(with_word(b, off, v), other) == word_at(b, other),
{
}

/// Reads the word at `off`.
pub fn load_word(b: &Vec<u8>, off: usize) -> (r: u32)
    requires
        off + 4 <= b@.len(),
    ensures
        r == word_at(b@, off as int),
{
    let _n: usize = b.len();
    b[off] as u32 + 256 * (b[off + 1] as u32) + 65536 * (b[off + 2] as u32) + 16777216 * (b[off
        + 3] as u32)
}

/// Stores `v` as the word at `off`.
pub fn store_word(b: &mut Vec<u8>, off: usize, v: u32)
    requires
        off + 4 <= old(b)@.len(),
    ensures
        final(b)@ == with_word(old(b)@, off as int, v),
        word_at(final(b)@, off as int) == v,
{
    let _n: usize = b.len();
    b.set(off, (v % 256) as u8);
    b.set(off + 1, ((v / 256) % 256) as u8);
    b.set(off + 2, ((v / 65536) % 256) as u8);
    b.set(off + 3, (v / 16777216) as u8);
    proof {
        lemma_word_round_trip(old(b)@, off as int, v);
    }
}

} // verus!
