use stlinky::{set_stdout, set_stdout_at, stdout, Stlinky, StlinkyBuffer, HEADER_SIZE, STLINKY_MAGIC};

fn block(len: usize) -> Vec<StlinkyBuffer> {
    vec![StlinkyBuffer(0); len]
}

fn word(bytes: &[u8], off: usize) -> u32 {
    u32::from_le_bytes([bytes[off], bytes[off + 1], bytes[off + 2], bytes[off + 3]])
}

#[test]
fn new_at_forty_bytes_gives_capacity_eight() {
    let s = Stlinky::new_at(block(40));
    assert_eq!(s.capacity(), 8);
    assert_eq!(s.magic(), STLINKY_MAGIC);
    assert_eq!(s.up_tail(), 0);
    assert_eq!(s.up_head(), 0);
}

#[test]
fn new_at_lays_out_header_little_endian() {
    let s = Stlinky::new_at(block(41));
    let b = s.block();
    assert_eq!(b.len(), 41);
    assert_eq!(&b[0..4], &[0x0d, 0xf0, 0xad, 0xde]);
    assert_eq!(word(b, 4), 8);
    for off in [8, 12, 16, 20] {
        assert_eq!(word(b, off), 0);
    }
    assert_eq!(HEADER_SIZE, 24);
}

#[test]
fn new_at_keeps_region_bytes() {
    let mut mem = block(30);
    for (i, c) in mem.iter_mut().enumerate() {
        *c = StlinkyBuffer(i as u8);
    }
    let s = Stlinky::new_at(mem);
    assert_eq!(s.capacity(), 3);
    assert_eq!(s.up_buf(), vec![24, 25, 26]);
    assert_eq!(&s.block()[27..30], &[27, 28, 29]);
}

#[test]
fn smallest_block_has_capacity_two() {
    let mut s = Stlinky::new_at(block(28));
    assert_eq!(s.capacity(), 2);
    assert_eq!(s.write(b"xyz"), 1);
    assert_eq!(s.write(b"z"), 0);
    assert_eq!(s.up_buf()[0], b'x');
}

#[test]
fn example_end_to_end() {
    let mut s = Stlinky::new_at(block(40));
    assert_eq!(s.write(b"HELLO"), 5);
    assert_eq!(&s.up_buf()[0..5], b"HELLO");
    assert_eq!(s.up_head(), 5);
    assert_eq!(s.up_tail(), 0);
    assert_eq!(s.write(b"WORLD!"), 2);
    assert_eq!(&s.up_buf()[5..7], b"WO");
    assert_eq!(s.up_head(), 7);
    assert_eq!((s.up_head() + 8 - s.up_tail()) % 8, 7);
    assert_eq!(s.write(b"!"), 0);
    assert_eq!(s.up_head(), 7);
}

#[test]
fn wrap_splits_into_two_segments() {
    let mut s = Stlinky::new_at(block(40));
    assert_eq!(s.write(b"------"), 6);
    s.release_up(6);
    assert_eq!(s.up_tail(), 6);
    assert_eq!(s.up_head(), 6);
    assert_eq!(s.write(b"abcde"), 5);
    assert_eq!(s.up_head(), 3);
    let up = s.up_buf();
    assert_eq!([up[6], up[7], up[0], up[1], up[2]], *b"abcde");
}

#[test]
fn capacity_minus_one_fills_an_empty_channel() {
    let mut s = Stlinky::new_at(block(40));
    assert_eq!(s.write(b"1234567"), 7);
    assert_eq!(s.write(b"8"), 0);
    let mut t = Stlinky::new_at(block(40));
    assert_eq!(t.write(b"12345678"), 7);
    assert_eq!(t.up_buf()[7], 0);
}

#[test]
fn full_and_empty_differ_after_wrap() {
    let mut s = Stlinky::new_at(block(40));
    assert_eq!(s.write(b"abcdef"), 6);
    s.release_up(3);
    // tail 3, head 6: three held, four free.
    assert_eq!(s.write(b"ghijklmn"), 4);
    assert_eq!(s.up_head(), 2);
    assert_ne!(s.up_head(), s.up_tail());
    assert_eq!(s.write(b"z"), 0);
    s.release_up(7);
    assert_eq!(s.up_tail(), 2);
    assert_eq!(s.up_head(), s.up_tail());
    assert_eq!(s.write(b"12"), 2);
}

#[test]
fn fitting_write_lands_in_order_from_head() {
    let mut s = Stlinky::new_at(block(50));
    assert_eq!(s.capacity(), 13);
    assert_eq!(s.write(b"abc"), 3);
    assert_eq!(s.write(b"defgh"), 5);
    assert_eq!(&s.up_buf()[3..8], b"defgh");
    assert_eq!(s.up_head(), 8);
}

#[test]
fn empty_write_changes_nothing() {
    let mut s = Stlinky::new_at(block(40));
    assert_eq!(s.write(b"abc"), 3);
    let before = s.block().to_vec();
    assert_eq!(s.write(b""), 0);
    assert_eq!(s.block(), &before[..]);
    assert_eq!(s.write(b"defg"), 4);
    assert_eq!(s.write(b""), 0);
    assert_eq!(s.up_head(), 7);
}

#[test]
fn write_touches_only_upstream_and_head() {
    let mut s = Stlinky::new_at(block(40));
    let before = s.block().to_vec();
    assert_eq!(s.write(b"HELLO"), 5);
    let after = s.block();
    assert_eq!(&after[0..12], &before[0..12]);
    assert_eq!(word(after, 12), 5);
    assert_eq!(&after[16..24], &before[16..24]);
    assert_eq!(&after[32..40], &before[32..40]);
}

#[test]
fn default_channel_slot() {
    let mut slot: Option<Stlinky> = None;
    assert!(stdout(&mut slot).is_none());
    set_stdout_at(&mut slot, block(40));
    let out = stdout(&mut slot).unwrap();
    assert_eq!(out.write(b"hi"), 2);
    assert_eq!(slot.as_ref().unwrap().up_head(), 2);
    set_stdout(&mut slot, Stlinky::new_at(block(30)));
    assert_eq!(stdout(&mut slot).unwrap().capacity(), 3);
}
