//! The default output channel, held in a slot that the caller owns and
//! passes along, rather than in global state.

use vstd::prelude::*;
use crate::channel::{block_bytes, block_len_ok, initialized, Stlinky, StlinkyBuffer};

verus! {

/// Places a channel over `buffer` and makes it the default one.
pub fn set_stdout_at(slot: &mut Option<Stlinky>, buffer: Vec<StlinkyBuffer>)
    requires
        block_len_ok(buffer@.len() as int),
    ensures
        (*final(slot)) is Some,
        final(slot).unwrap().wf(),
        final(slot).unwrap()@ == initialized(block_bytes(buffer@)),
{
    set_stdout(slot, Stlinky::new_at(buffer));
}

/// Makes `stlinky` the default channel, in place of any earlier one.
pub fn set_stdout(slot: &mut Option<Stlinky>, stlinky: Stlinky)
    ensures
        *final(slot) == Some(stlinky),
{
    *slot = Some(stlinky);
}

/// The default channel, if one was set.
pub fn stdout(slot: &mut Option<Stlinky>) -> (r: Option<&mut Stlinky>)
    ensures
        (match *old(slot) {
            None => (*final(slot)) is None && r is None,
            Some(s) => (*final(slot)) is Some && r is Some && *r.unwrap() == s && *final(r.unwrap())
                == final(slot).unwrap(),
        }),
{
    slot.as_mut()
}

} // verus!
