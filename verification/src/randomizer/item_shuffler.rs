//! Item identities packed as bit flags, with a membership test.

use vstd::prelude::*;

verus! {

/// The flag bit identifying the first item.
pub const ITEM_1: u64 = 0x01;

/// The flag bit identifying the second item.
pub const ITEM_2: u64 = 0x01 << 1;

/// The flag bit identifying the third item.
pub const ITEM_3: u64 = 0x01 << 2;

/// A set of item identities packed as bits of one word.
#[derive(Copy, Clone, Debug, PartialEq, Eq, Structural)]
pub struct ItemFlags {
    pub bits: u64,
}

impl ItemFlags {
    /// The flag set holding exactly the given bits.
    pub fn from_bits(bits: u64) -> (r: ItemFlags)
        ensures
            r.bits == bits,
    {
        ItemFlags { bits }
    }

    /// Whether no flag is set.
    pub fn is_empty(&self) -> (r: bool)
        ensures
            r == (self.bits == 0),
    {
        self.bits == 0
    }
}

/// Whether `items` holds any of the flags of `item`: their intersection is
/// not empty.
pub fn contains_item(items: ItemFlags, item: ItemFlags) -> (r: bool)
    ensures
        r == ((items.bits & item.bits) != 0),
{
    let intersection = ItemFlags { bits: items.bits & item.bits };
    !intersection.is_empty()
}

} // verus!
