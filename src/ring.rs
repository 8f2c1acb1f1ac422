//! Ring arithmetic over a pair of indices in `[0, capacity)`.
//!
//! One slot is kept free so that a full ring and an empty ring never share an
//! index pair: the ring is empty when `head == tail` and full when
//! `(head - tail) mod capacity == capacity - 1`.

use vstd::prelude::*;

verus! {

/// Bytes held between `tail` (next unread) and `head` (next free slot).
pub open spec fn used(tail: int, head: int, cap: int) -> int {
    (head - tail) % cap
}

/// Bytes that can still be written without `head` reaching `tail`.
pub open spec fn free_space(tail: int, head: int, cap: int) -> int {
    cap - 1 - used(tail, head, cap)
}

pub open spec fn ring_is_empty(tail: int, head: int) -> bool {
    head == tail
}

pub open spec fn ring_is_full(tail: int, head: int, cap: int) -> bool {
    used(tail, head, cap) == cap - 1
}

/// Both indices lie in `[0, cap)` and `cap` leaves room for the spare slot.
pub open spec fn indices_valid(tail: int, head: int, cap: int) -> bool {
    &&& 1 < cap
    &&& 0 <= tail < cap
    &&& 0 <= head < cap
}

/// How many bytes of a write of `len` bytes are accepted.
pub open spec fn accepted(tail: int, head: int, cap: int, len: int) -> int {
    if len <= free_space(tail, head, cap) {
        len
    } else {
        free_space(tail, head, cap)
    }
}

/// Where the head stands once `n` more bytes are in.
pub open spec fn advanced(head: int, n: int, cap: int) -> int {
    (head + n) % cap
}

/// `used` without the modulo, for indices in range.
pub proof fn lemma_used_bounds(tail: int, head: int, cap: int)
    requires
        indices_valid(tail, head, cap),
    ensures
        0 <= used(tail, head, cap) < cap,
        head >= tail ==> used(tail, head, cap) == head - tail,
        head < tail ==> used(tail, head, cap) == head - tail + cap,
{
    if head < tail {
        vstd::arithmetic::div_mod::lemma_small_mod((head - tail + cap) as nat, cap as nat);
        vstd::arithmetic::div_mod::lemma_mod_add_multiples_vanish(head - tail, cap);
    } else {
        vstd::arithmetic::div_mod::lemma_small_mod((head - tail) as nat, cap as nat);
    }
}

/// `advanced` without the modulo, for a step shorter than the ring.
pub proof fn lemma_advanced_bounds(head: int, n: int, cap: int)
    requires
        0 <= head < cap,
        0 <= n < cap,
    ensures
        head + n < cap ==> advanced(head, n, cap) == head + n,
        head + n >= cap ==> advanced(head, n, cap) == head + n - cap,
{
    if head + n < cap {
        vstd::arithmetic::div_mod::lemma_small_mod((head + n) as nat, cap as nat);
    } else {
        vstd::arithmetic::div_mod::lemma_small_mod((head + n - cap) as nat, cap as nat);
        vstd::arithmetic::div_mod::lemma_mod_add_multiples_vanish(head + n - cap, cap);
    }
}

/// Moving the head by `n` free slots adds `n` to what the ring holds.
pub proof fn lemma_advance_used(tail: int, head: int, cap: int, n: int)
    requires
        indices_valid(tail, head, cap),
        0 <= n <= free_space(tail, head, cap),
    ensures
        indices_valid(tail, advanced(head, n, cap), cap),
        used(tail, advanced(head, n, cap), cap) == used(tail, head, cap) + n,
{
    lemma_used_bounds(tail, head, cap);
    lemma_advanced_bounds(head, n, cap);
    lemma_used_bounds(tail, advanced(head, n, cap), cap);
}

/// An empty ring is never full and a full ring is never empty, and an index
/// pair is empty exactly when nothing is held in it.
pub proof fn lemma_full_empty_exclusive(tail: int, head: int, cap: int)
    requires
        indices_valid(tail, head, cap),
    ensures
        ring_is_empty(tail, head) <==> used(tail, head, cap) == 0,
        !(ring_is_empty(tail, head) && ring_is_full(tail, head, cap)),
        ring_is_full(tail, head, cap) <==> free_space(tail, head, cap) == 0,
        0 <= free_space(tail, head, cap) <= cap - 1,
{
    lemma_used_bounds(tail, head, cap);
}

/// The full test on index values, without any modulo.
pub fn is_full(head: usize, tail: usize, buf_size: usize) -> (r: bool)
    requires
        indices_valid(tail as int, head as int, buf_size as int),
    ensures
        r == ring_is_full(tail as int, head as int, buf_size as int),
{
    proof {
        lemma_used_bounds(tail as int, head as int, buf_size as int);
    }
    (tail == 0 && head == buf_size - 1) || (tail > head && tail - head == 1)
}

} // verus!
