//! The channel: a memory block laid out as in `layout`, and its write side.
//!
//! The writer owns `up_head`; the external reader owns `up_tail`. A write
//! fills bytes from the head onwards, wrapping at the end of the region, and
//! then publishes the new head in one store of the head word.

use vstd::prelude::*;
use crate::layout::{
    load_word, store_word, with_word, word_at, lemma_word_round_trip, BUF_SIZE_OFFSET,
    DW_HEAD_OFFSET, DW_TAIL_OFFSET, HEADER_SIZE, MAGIC_OFFSET, STLINKY_MAGIC, UP_HEAD_OFFSET,
    UP_TAIL_OFFSET,
};
use crate::ring::{
    accepted, advanced, free_space, indices_valid, is_full, lemma_advance_used,
    lemma_advanced_bounds, lemma_full_empty_exclusive, lemma_used_bounds, ring_is_empty, used,
};

verus! {

/// One byte of the memory block a channel is placed in.
#[derive(Copy, Clone)]
pub struct StlinkyBuffer(pub u8);

/// A channel placed over a memory block that it holds.
pub struct Stlinky {
    mem: Vec<u8>,
}

pub open spec fn block_magic(b: Seq<u8>) -> int {
    word_at(b, MAGIC_OFFSET as int)
}

/// Byte capacity of each of the two regions.
pub open spec fn block_capacity(b: Seq<u8>) -> int {
    word_at(b, BUF_SIZE_OFFSET as int)
}

pub open spec fn block_up_tail(b: Seq<u8>) -> int {
    word_at(b, UP_TAIL_OFFSET as int)
}

pub open spec fn block_up_head(b: Seq<u8>) -> int {
    word_at(b, UP_HEAD_OFFSET as int)
}

pub open spec fn block_dw_tail(b: Seq<u8>) -> int {
    word_at(b, DW_TAIL_OFFSET as int)
}

pub open spec fn block_dw_head(b: Seq<u8>) -> int {
    word_at(b, DW_HEAD_OFFSET as int)
}

/// The upstream region: the `capacity` bytes right after the header.
pub open spec fn up_region(b: Seq<u8>) -> Seq<u8> {
    b.subrange(HEADER_SIZE as int, HEADER_SIZE + block_capacity(b))
}

/// The downstream region: the `capacity` bytes after the upstream region.
pub open spec fn dw_region(b: Seq<u8>) -> Seq<u8> {
    b.subrange(HEADER_SIZE + block_capacity(b), HEADER_SIZE + 2 * block_capacity(b))
}

/// A block that holds a channel: the header, both regions, the magic word,
/// a capacity above one and every index inside its region.
pub open spec fn well_formed(b: Seq<u8>) -> bool {
    &&& HEADER_SIZE + 4 <= b.len()
    &&& HEADER_SIZE + 2 * block_capacity(b) <= b.len() <= usize::MAX
    &&& block_magic(b) == STLINKY_MAGIC
    &&& indices_valid(block_up_tail(b), block_up_head(b), block_capacity(b))
    &&& indices_valid(block_dw_tail(b), block_dw_head(b), block_capacity(b))
}

/// The region after the first `n` bytes of `data` are laid down from `head`
/// on, wrapping at its end: slot `i` gets `data[k]` where `k` is its distance
/// from `head`.
pub open spec fn ring_store(region: Seq<u8>, head: int, data: Seq<u8>, n: int) -> Seq<u8> {
    Seq::new(
        region.len(),
        |i: int|
            if used(head, i, region.len() as int) < n {
                data[used(head, i, region.len() as int)]
            } else {
                region[i]
            },
    )
}

/// The block with the upstream region replaced by `ring_store` of `n` bytes.
pub open spec fn stored_block(b: Seq<u8>, data: Seq<u8>, n: int) -> Seq<u8> {
    Seq::new(
        b.len(),
        |i: int|
            if HEADER_SIZE <= i < HEADER_SIZE + block_capacity(b) {
                ring_store(up_region(b), block_up_head(b), data, n)[i - HEADER_SIZE]
            } else {
                b[i]
            },
    )
}

/// Bytes of `data` that a write into block `b` accepts.
pub open spec fn write_count(b: Seq<u8>, data: Seq<u8>) -> int {
    accepted(block_up_tail(b), block_up_head(b), block_capacity(b), data.len() as int)
}

/// The block after a write of `data`: the accepted bytes in the upstream
/// region, and the head moved past them.
pub open spec fn after_write(b: Seq<u8>, data: Seq<u8>) -> Seq<u8> {
    let n = write_count(b, data);
    with_word(
        stored_block(b, data, n),
        UP_HEAD_OFFSET as int,
        advanced(block_up_head(b), n, block_capacity(b)) as u32,
    )
}

/// The bytes held in a caller's memory block.
pub open spec fn block_bytes(mem: Seq<StlinkyBuffer>) -> Seq<u8> {
    mem.map_values(|c: StlinkyBuffer| c.0)
}

/// Capacity of each region in a block of `len` bytes.
pub open spec fn capacity_for(len: int) -> int {
    (len - HEADER_SIZE) / 2
}

/// A block length that leaves room for the header and two regions of more
/// than one byte, with a capacity that fits the 32-bit field.
pub open spec fn block_len_ok(len: int) -> bool {
    &&& len > HEADER_SIZE
    &&& capacity_for(len) > 1
    &&& capacity_for(len) <= u32::MAX
}

/// The block `b` with a fresh header: capacity for its length, all four
/// indices zero, and the magic word. The regions keep their bytes.
pub open spec fn initialized(b: Seq<u8>) -> Seq<u8> {
    with_word(
        with_word(
            with_word(
                with_word(
                    with_word(
                        with_word(b, BUF_SIZE_OFFSET as int, capacity_for(b.len() as int) as u32),
                        UP_TAIL_OFFSET as int,
                        0,
                    ),
                    UP_HEAD_OFFSET as int,
                    0,
                ),
                DW_TAIL_OFFSET as int,
                0,
            ),
            DW_HEAD_OFFSET as int,
            0,
        ),
        MAGIC_OFFSET as int,
        STLINKY_MAGIC,
    )
}

impl View for Stlinky {
    type V = Seq<u8>;

    closed spec fn view(&self) -> Seq<u8> {
        self.mem@
    }
}

/// Storing into the upstream region keeps the header and the rest of the
/// block, and a store of nothing keeps the block.
pub proof fn lemma_stored_block_frame(b: Seq<u8>, data: Seq<u8>, n: int)
    requires
        well_formed(b),
    ensures
        stored_block(b, data, n).len() == b.len(),
        forall|i: int|
            0 <= i < HEADER_SIZE || HEADER_SIZE + block_capacity(b) <= i < b.len() ==> #[trigger] stored_block(
                b,
                data,
                n,
            )[i] == b[i],
        up_region(stored_block(b, data, n)) == ring_store(up_region(b), block_up_head(b), data, n),
        n <= 0 ==> stored_block(b, data, n) == b,
{
    let s = stored_block(b, data, n);
    let cap = block_capacity(b);
    assert(word_at(s, BUF_SIZE_OFFSET as int) == cap);
    assert(up_region(s) =~= ring_store(up_region(b), block_up_head(b), data, n));
    if n <= 0 {
        assert forall|i: int| 0 <= i < b.len() implies s[i] == b[i] by {
            if HEADER_SIZE <= i < HEADER_SIZE + cap {
                lemma_used_bounds(block_up_head(b), i - HEADER_SIZE, cap);
            }
        }
        assert(s =~= b);
    }
}

/// A write keeps the block well formed and changes only the upstream region
/// and the head word; the accepted bytes fit in the free space.
pub proof fn lemma_after_write(b: Seq<u8>, data: Seq<u8>)
    requires
        well_formed(b),
    ensures
        ({
            let a = after_write(b, data);
            let n = write_count(b, data);
            &&& well_formed(a)
            &&& a.len() == b.len()
            &&& 0 <= n <= free_space(block_up_tail(b), block_up_head(b), block_capacity(b))
            &&& block_magic(a) == block_magic(b)
            &&& block_capacity(a) == block_capacity(b)
            &&& block_up_tail(a) == block_up_tail(b)
            &&& block_dw_tail(a) == block_dw_tail(b)
            &&& block_dw_head(a) == block_dw_head(b)
            &&& block_up_head(a) == advanced(block_up_head(b), n, block_capacity(b))
            &&& n > 0 ==> !ring_is_empty(block_up_tail(a), block_up_head(a))
            &&& up_region(a) == ring_store(up_region(b), block_up_head(b), data, n)
            &&& dw_region(a) == dw_region(b)
            &&& a.subrange(0, UP_HEAD_OFFSET as int) == b.subrange(0, UP_HEAD_OFFSET as int)
            &&& a.subrange(DW_TAIL_OFFSET as int, b.len() as int) == stored_block(b, data, n).subrange(
                DW_TAIL_OFFSET as int,
                b.len() as int,
            )
        }),
{
    let n = write_count(b, data);
    let cap = block_capacity(b);
    let h = block_up_head(b);
    let t = block_up_tail(b);
    let s = stored_block(b, data, n);
    lemma_full_empty_exclusive(t, h, cap);
    lemma_stored_block_frame(b, data, n);
    let nh = advanced(h, n, cap);
    lemma_advance_used(t, h, cap, n);
    lemma_used_bounds(t, nh, cap);
    lemma_word_round_trip(s, UP_HEAD_OFFSET as int, nh as u32);
    let a = after_write(b, data);
    assert(a.subrange(0, UP_HEAD_OFFSET as int) =~= b.subrange(0, UP_HEAD_OFFSET as int));
    assert(a.subrange(DW_TAIL_OFFSET as int, b.len() as int) =~= s.subrange(
        DW_TAIL_OFFSET as int,
        b.len() as int,
    ));
    assert(up_region(a) =~= up_region(s));
    assert(dw_region(a) =~= dw_region(b));
}

/// Laying down byte `k` at the cursor extends the store by one byte.
proof fn lemma_store_step(b: Seq<u8>, data: Seq<u8>, k: int, pos: int)
    requires
        well_formed(b),
        0 <= k < data.len(),
        k < free_space(block_up_tail(b), block_up_head(b), block_capacity(b)),
        pos == advanced(block_up_head(b), k, block_capacity(b)),
    ensures
        0 <= pos < block_capacity(b),
        advanced(block_up_head(b), k + 1, block_capacity(b)) == if pos + 1 == block_capacity(b) {
            0
        } else {
            pos + 1
        },
        stored_block(b, data, k).update(HEADER_SIZE + pos, data[k]) == stored_block(
            b,
            data,
            k + 1,
        ),
{
    let cap = block_capacity(b);
    let h = block_up_head(b);
    lemma_full_empty_exclusive(block_up_tail(b), h, cap);
    lemma_advanced_bounds(h, k, cap);
    lemma_advanced_bounds(h, k + 1, cap);
    lemma_stored_block_frame(b, data, k);
    lemma_stored_block_frame(b, data, k + 1);
    let cur = stored_block(b, data, k).update(HEADER_SIZE + pos, data[k]);
    let next = stored_block(b, data, k + 1);
    assert forall|i: int| 0 <= i < b.len() implies cur[i] == next[i] by {
        if HEADER_SIZE <= i < HEADER_SIZE + cap {
            lemma_used_bounds(h, i - HEADER_SIZE, cap);
        }
    }
    assert(cur =~= next);
}

impl Stlinky {
    pub open spec fn wf(&self) -> bool {
        well_formed(self@)
    }

    /// Places a channel over `buffer`: the header takes its first bytes and
    /// each region gets half of the rest.
    pub fn new_at(buffer: Vec<StlinkyBuffer>) -> (r: Stlinky)
        requires
            block_len_ok(buffer@.len() as int),
        ensures
            r.wf(),
            r@ == initialized(block_bytes(buffer@)),
            r@.len() == buffer@.len(),
            block_magic(r@) == STLINKY_MAGIC,
            block_capacity(r@) == capacity_for(buffer@.len() as int),
            block_up_tail(r@) == 0,
            block_up_head(r@) == 0,
            block_dw_tail(r@) == 0,
            block_dw_head(r@) == 0,
            r@.subrange(HEADER_SIZE as int, r@.len() as int) == block_bytes(buffer@).subrange(
                HEADER_SIZE as int,
                buffer@.len() as int,
            ),
    {
        let len = buffer.len();
        let mut mem: Vec<u8> = Vec::new();
        let mut i: usize = 0;
        while i < len
            invariant
                len == buffer@.len(),
                0 <= i <= len,
                mem@ == block_bytes(buffer@).subrange(0, i as int),
            decreases len - i,
        {
            mem.push(buffer[i].0);
            i = i + 1;
            assert(mem@ =~= block_bytes(buffer@).subrange(0, i as int));
        }
        assert(mem@ =~= block_bytes(buffer@));
        let buf_size = (len - HEADER_SIZE) / 2;
        store_word(&mut mem, BUF_SIZE_OFFSET, buf_size as u32);
        store_word(&mut mem, UP_TAIL_OFFSET, 0);
        store_word(&mut mem, UP_HEAD_OFFSET, 0);
        store_word(&mut mem, DW_TAIL_OFFSET, 0);
        store_word(&mut mem, DW_HEAD_OFFSET, 0);
        store_word(&mut mem, MAGIC_OFFSET, STLINKY_MAGIC);
        assert(mem@.subrange(HEADER_SIZE as int, mem@.len() as int) =~= block_bytes(
            buffer@,
        ).subrange(HEADER_SIZE as int, len as int));
        Stlinky { mem }
    }

    /// The magic word.
    pub fn magic(&self) -> (r: u32)
        requires
            self.wf(),
        ensures
            r == block_magic(self@),
    {
        load_word(&self.mem, MAGIC_OFFSET)
    }

    /// Byte capacity of each region.
    pub fn capacity(&self) -> (r: u32)
        requires
            self.wf(),
        ensures
            r == block_capacity(self@),
    {
        load_word(&self.mem, BUF_SIZE_OFFSET)
    }

    /// Index of the next byte the reader has not drained.
    pub fn up_tail(&self) -> (r: u32)
        requires
            self.wf(),
        ensures
            r == block_up_tail(self@),
    {
        load_word(&self.mem, UP_TAIL_OFFSET)
    }

    /// Index of the next free slot of the upstream region.
    pub fn up_head(&self) -> (r: u32)
        requires
            self.wf(),
        ensures
            r == block_up_head(self@),
    {
        load_word(&self.mem, UP_HEAD_OFFSET)
    }

    /// The whole block, as an external observer sees it.
    pub fn block(&self) -> (r: &[u8])
        ensures
            r@ == self@,
    {
        self.mem.as_slice()
    }

    /// A copy of the upstream region.
    pub fn up_buf(&self) -> (r: Vec<u8>)
        requires
            self.wf(),
        ensures
            r@ == up_region(self@),
    {
        let buf_size = load_word(&self.mem, BUF_SIZE_OFFSET) as usize;
        let mut out: Vec<u8> = Vec::new();
        let mut i: usize = 0;
        while i < buf_size
            invariant
                well_formed(self@),
                buf_size == block_capacity(self@),
                0 <= i <= buf_size,
                out@ == up_region(self@).subrange(0, i as int),
            decreases buf_size - i,
        {
            out.push(self.mem[HEADER_SIZE + i]);
            i = i + 1;
            assert(out@ =~= up_region(self@).subrange(0, i as int));
        }
        assert(out@ =~= up_region(self@));
        out
    }

    /// Moves `up_tail` past `n` bytes, as the external reader does once it
    /// has drained them.
    pub fn release_up(&mut self, n: u32)
        requires
            old(self).wf(),
            n <= used(block_up_tail(old(self)@), block_up_head(old(self)@), block_capacity(old(self)@)),
        ensures
            final(self).wf(),
            final(self)@ == with_word(
                old(self)@,
                UP_TAIL_OFFSET as int,
                advanced(block_up_tail(old(self)@), n as int, block_capacity(old(self)@)) as u32,
            ),
            block_up_tail(final(self)@) == advanced(block_up_tail(old(self)@), n as int, block_capacity(old(self)@)),
    {
        let ghost b = self.mem@;
        let tail = load_word(&self.mem, UP_TAIL_OFFSET) as u64;
        let buf_size = load_word(&self.mem, BUF_SIZE_OFFSET) as u64;
        proof {
            lemma_used_bounds(tail as int, block_up_head(b), buf_size as int);
            lemma_advanced_bounds(tail as int, n as int, buf_size as int);
        }
        let mut new_tail = tail + n as u64;
        if new_tail >= buf_size {
            new_tail = new_tail - buf_size;
        }
        store_word(&mut self.mem, UP_TAIL_OFFSET, new_tail as u32);
        proof {
            lemma_word_round_trip(b, UP_TAIL_OFFSET as int, new_tail as u32);
        }
    }

    /// Lays down `buf[0..count]` from the head on, wrapping at the end of the
    /// upstream region, and returns where the head then stands. The head word
    /// itself is not touched.
    fn fill_up(&mut self, buf: &[u8], head: usize, buf_size: usize, count: usize) -> (r: usize)
        requires
            well_formed(old(self)@),
            head == block_up_head(old(self)@),
            buf_size == block_capacity(old(self)@),
            count <= buf@.len(),
            count <= free_space(block_up_tail(old(self)@), head as int, buf_size as int),
        ensures
            final(self)@ == stored_block(old(self)@, buf@, count as int),
            final(self)@.subrange(0, HEADER_SIZE as int) == old(self)@.subrange(
                0,
                HEADER_SIZE as int,
            ),
            r == advanced(head as int, count as int, buf_size as int),
    {
        let ghost b = self.mem@;
        proof {
            lemma_full_empty_exclusive(block_up_tail(b), head as int, buf_size as int);
            vstd::arithmetic::div_mod::lemma_small_mod(head as nat, buf_size as nat);
            lemma_stored_block_frame(b, buf@, 0);
        }
        let mut cursor = head;
        let mut k: usize = 0;
        while k < count
            invariant
                well_formed(b),
                head == block_up_head(b),
                buf_size == block_capacity(b),
                count <= buf@.len(),
                count <= free_space(block_up_tail(b), head as int, buf_size as int),
                0 <= k <= count,
                cursor == advanced(head as int, k as int, buf_size as int),
                cursor < buf_size,
                self.mem@ == stored_block(b, buf@, k as int),
            decreases count - k,
        {
            proof {
                lemma_store_step(b, buf@, k as int, cursor as int);
            }
            self.mem.set(HEADER_SIZE + cursor, buf[k]);
            cursor = cursor + 1;
            if cursor == buf_size {
                cursor = 0;
            }
            k = k + 1;
        }
        proof {
            lemma_stored_block_frame(b, buf@, count as int);
            assert(self.mem@.subrange(0, HEADER_SIZE as int) =~= b.subrange(0, HEADER_SIZE as int));
        }
        cursor
    }

    /// Writes as much of `buf` as fits into the upstream region and returns
    /// how many bytes were taken; the rest is dropped. A full channel takes
    /// nothing and is left as it was.
    pub fn write(&mut self, buf: &[u8]) -> (r: usize)
        requires
            old(self).wf(),
        ensures
            final(self).wf(),
            r == write_count(old(self)@, buf@),
            final(self)@ == after_write(old(self)@, buf@),
            buf@.len() == 0 ==> r == 0 && final(self)@ == old(self)@,
            r > 0 ==> !ring_is_empty(block_up_tail(final(self)@), block_up_head(final(self)@)),
    {
        let ghost b = self.mem@;
        proof {
            lemma_after_write(b, buf@);
        }
        let tail = load_word(&self.mem, UP_TAIL_OFFSET) as usize;
        let head = load_word(&self.mem, UP_HEAD_OFFSET) as usize;
        let buf_size = load_word(&self.mem, BUF_SIZE_OFFSET) as usize;
        proof {
            lemma_used_bounds(tail as int, head as int, buf_size as int);
            lemma_full_empty_exclusive(tail as int, head as int, buf_size as int);
        }
        if is_full(head, tail, buf_size) {
            proof {
                lemma_stored_block_frame(b, buf@, 0);
                lemma_word_round_trip(b, UP_HEAD_OFFSET as int, head as u32);
                vstd::arithmetic::div_mod::lemma_small_mod(head as nat, buf_size as nat);
            }
            return 0;
        }
        // Free slots between head and tail, keeping one spare.
        let free: usize = if tail > head {
            tail - head - 1
        } else {
            buf_size - head + tail - 1
        };
        let count: usize = if buf.len() < free {
            buf.len()
        } else {
            free
        };
        let new_head = self.fill_up(buf, head, buf_size, count);
        // Publish the head only once the bytes are in place.
        store_word(&mut self.mem, UP_HEAD_OFFSET, new_head as u32);
        proof {
            if buf@.len() == 0 {
                lemma_stored_block_frame(b, buf@, 0);
                lemma_word_round_trip(b, UP_HEAD_OFFSET as int, head as u32);
                vstd::arithmetic::div_mod::lemma_small_mod(head as nat, buf_size as nat);
            }
        }
        count
    }
}

} // verus!
