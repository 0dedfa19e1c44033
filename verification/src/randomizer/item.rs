//! The closed enumeration of item kinds and their placement classes.

use vstd::prelude::*;

verus! {

/// A concrete item kind.
#[derive(Copy, Clone, Debug, PartialEq, Eq, Structural)]
pub enum Item {
    Item0,
    Item1,
    Item2,
    Item3,
}

/// An item tagged with its placement class. Only `Progression` items take
/// part in accessibility reasoning; `Nice` and `Junk` items are freely
/// placeable once progression placement is complete.
#[derive(Copy, Clone, Debug, PartialEq, Eq, Structural)]
pub enum LabelledItem {
    Progression(Item),
    Nice(Item),
    Junk(Item),
}

} // verus!
