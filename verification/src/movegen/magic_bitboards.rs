//! Multiplicative hashing of blocker sets.

use vstd::prelude::*;
use crate::gamestate::board::Bitboard;

verus! {

/// The parameters that map the blockers on the relevant squares of one
/// square to an index: the blockers are multiplied by `nr`, the high bits
/// of the product are kept and `offset` is added.
#[derive(Default, Copy, Clone)]
pub struct Magic {
    pub mask: Bitboard,
    pub shift: u8,
    pub offset: u64,
    pub nr: u64,
}

/// The index of the blockers `occupancy`: the members of `mask` among them,
/// multiplied by `nr` modulo two to the 64, shifted right by `shift`, plus
/// `offset`.
pub open spec fn magic_index(magic: Magic, occupancy: u64) -> int {
    ((((occupancy & magic.mask) as int * magic.nr as int) % 0x1_0000_0000_0000_0000) as u64
        >> magic.shift) + magic.offset
}

impl Magic {
    /// The index of `occupancy`. It must fit in a `usize`, and the shift
    /// must be less than 64.
    pub fn get_index(&self, occupancy: Bitboard) -> (index: usize)
        requires
            self.shift < 64,
            magic_index(*self, occupancy) <= usize::MAX,
        ensures
            index == magic_index(*self, occupancy),
    {
        let blocker_mask: u64 = occupancy & self.mask;
        let product: u64 = blocker_mask.wrapping_mul(self.nr);
        ((product >> self.shift) + self.offset) as usize
    }
}

} // verus!
