//! What holds of every channel and every write, stated over the block model.

use vstd::prelude::*;
use crate::channel::{
    after_write, block_bytes, block_capacity, block_len_ok, block_up_head, block_up_tail,
    capacity_for, initialized, lemma_after_write, lemma_stored_block_frame, ring_store, up_region,
    well_formed, write_count, StlinkyBuffer,
};
use crate::layout::{
    lemma_word_frame, lemma_word_round_trip, with_word, STLINKY_MAGIC, UP_HEAD_OFFSET,
};
use crate::ring::{
    advanced, free_space, lemma_advance_used, lemma_advanced_bounds, lemma_full_empty_exclusive,
    lemma_used_bounds, ring_is_empty, ring_is_full, used,
};

verus! {

/// A freshly placed channel is well formed and empty, with the capacity that
/// its block length gives.
pub proof fn theorem_initialized_empty(buffer: Seq<StlinkyBuffer>)
    requires
        block_len_ok(buffer.len() as int),
        buffer.len() <= usize::MAX,
    ensures
        well_formed(initialized(block_bytes(buffer))),
        block_up_tail(initialized(block_bytes(buffer))) == 0,
        block_up_head(initialized(block_bytes(buffer))) == 0,
        block_capacity(initialized(block_bytes(buffer))) == capacity_for(buffer.len() as int),
{
    let b = block_bytes(buffer);
    let cap = capacity_for(b.len() as int) as u32;
    let m = STLINKY_MAGIC;
    let b1 = with_word(b, 4, cap);
    let b2 = with_word(b1, 8, 0);
    let b3 = with_word(b2, 12, 0);
    let b4 = with_word(b3, 16, 0);
    let b5 = with_word(b4, 20, 0);
    let b6 = with_word(b5, 0, m);
    lemma_word_round_trip(b, 4, cap);
    lemma_word_round_trip(b1, 8, 0);
    lemma_word_round_trip(b2, 12, 0);
    lemma_word_round_trip(b3, 16, 0);
    lemma_word_round_trip(b4, 20, 0);
    lemma_word_round_trip(b5, 0, m);
    lemma_word_frame(b1, 8, 0, 4);
    lemma_word_frame(b2, 12, 0, 4);
    lemma_word_frame(b2, 12, 0, 8);
    lemma_word_frame(b3, 16, 0, 4);
    lemma_word_frame(b3, 16, 0, 8);
    lemma_word_frame(b3, 16, 0, 12);
    lemma_word_frame(b4, 20, 0, 4);
    lemma_word_frame(b4, 20, 0, 8);
    lemma_word_frame(b4, 20, 0, 12);
    lemma_word_frame(b4, 20, 0, 16);
    lemma_word_frame(b5, 0, m, 4);
    lemma_word_frame(b5, 0, m, 8);
    lemma_word_frame(b5, 0, m, 12);
    lemma_word_frame(b5, 0, m, 16);
    lemma_word_frame(b5, 0, m, 20);
    assert(initialized(b) == b6);
}

/// An empty channel takes `capacity - 1` bytes and no more: a write of
/// `capacity - 1` bytes fills it, a later write takes nothing, and a write of
/// `capacity` bytes takes only `capacity - 1`.
pub proof fn theorem_capacity(b: Seq<u8>, fill: Seq<u8>, over: Seq<u8>, next: Seq<u8>)
    requires
        well_formed(b),
        ring_is_empty(block_up_tail(b), block_up_head(b)),
        fill.len() == block_capacity(b) - 1,
        over.len() == block_capacity(b),
    ensures
        free_space(block_up_tail(b), block_up_head(b), block_capacity(b)) == block_capacity(b) - 1,
        write_count(b, fill) == block_capacity(b) - 1,
        ring_is_full(
            block_up_tail(after_write(b, fill)),
            block_up_head(after_write(b, fill)),
            block_capacity(after_write(b, fill)),
        ),
        write_count(after_write(b, fill), next) == 0,
        write_count(b, over) == block_capacity(b) - 1,
{
    let cap = block_capacity(b);
    let t = block_up_tail(b);
    let h = block_up_head(b);
    lemma_used_bounds(t, h, cap);
    lemma_after_write(b, fill);
    let a = after_write(b, fill);
    lemma_advance_used(t, h, cap, cap - 1);
    lemma_full_empty_exclusive(block_up_tail(a), block_up_head(a), cap);
}

/// Empty and full never hold together, and the ring is empty exactly when it
/// holds nothing.
pub proof fn theorem_full_empty_disjoint(tail: int, head: int, cap: int)
    requires
        1 < cap,
        0 <= tail < cap,
        0 <= head < cap,
    ensures
        !(ring_is_empty(tail, head) && ring_is_full(tail, head, cap)),
        ring_is_empty(tail, head) <==> used(tail, head, cap) == 0,
{
    lemma_full_empty_exclusive(tail, head, cap);
}

/// A write that takes any byte never leaves the head on the tail, so it can
/// never make the ring look empty.
pub proof fn theorem_write_never_looks_empty(b: Seq<u8>, data: Seq<u8>)
    requires
        well_formed(b),
    ensures
        write_count(b, data) > 0 ==> !ring_is_empty(
            block_up_tail(after_write(b, data)),
            block_up_head(after_write(b, data)),
        ),
{
    lemma_after_write(b, data);
}

/// A write that fits is taken whole: byte `k` lands `k` slots after the old
/// head, wrapping at the end of the region, and when it does not wrap the
/// bytes stand in order from the old head on.
pub proof fn theorem_no_data_loss(b: Seq<u8>, data: Seq<u8>)
    requires
        well_formed(b),
        data.len() <= free_space(block_up_tail(b), block_up_head(b), block_capacity(b)),
    ensures
        write_count(b, data) == data.len(),
        forall|k: int|
            0 <= k < data.len() ==> up_region(after_write(b, data))[advanced(
                block_up_head(b),
                k,
                block_capacity(b),
            )] == data[k],
        block_up_head(b) + data.len() <= block_capacity(b) ==> up_region(
            after_write(b, data),
        ).subrange(block_up_head(b), block_up_head(b) + data.len()) == data,
{
    let cap = block_capacity(b);
    let h = block_up_head(b);
    let t = block_up_tail(b);
    lemma_after_write(b, data);
    lemma_full_empty_exclusive(t, h, cap);
    lemma_used_bounds(h, h, cap);
    let r = up_region(after_write(b, data));
    assert(r == ring_store(up_region(b), h, data, data.len() as int));
    assert forall|k: int| 0 <= k < data.len() implies r[advanced(h, k, cap)] == data[k] by {
        lemma_full_empty_exclusive(h, h, cap);
        lemma_advance_used(h, h, cap, k);
    }
    if h + data.len() <= cap {
        assert forall|j: int| 0 <= j < data.len() implies r[h + j] == data[j] by {
            lemma_full_empty_exclusive(h, h, cap);
            lemma_advance_used(h, h, cap, j);
            lemma_advanced_bounds(h, j, cap);
        }
        assert(r.subrange(h, h + data.len()) =~= data);
    }
}

/// A write of nothing takes nothing and leaves the block as it was.
pub proof fn theorem_empty_write(b: Seq<u8>, data: Seq<u8>)
    requires
        well_formed(b),
        data.len() == 0,
    ensures
        write_count(b, data) == 0,
        after_write(b, data) == b,
{
    lemma_after_write(b, data);
    lemma_stored_block_frame(b, data, 0);
    lemma_used_bounds(block_up_tail(b), block_up_head(b), block_capacity(b));
    vstd::arithmetic::div_mod::lemma_small_mod(block_up_head(b) as nat, block_capacity(b) as nat);
    lemma_word_round_trip(b, UP_HEAD_OFFSET as int, block_up_head(b) as u32);
}

} // verus!
