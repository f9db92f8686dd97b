//! Chests standing on the map.
use vstd::prelude::*;
use crate::hex::HexCoord;

verus! {

/// A chest on a cell, holding `(item id, item count)` pairs.
#[derive(Clone, Debug, Default)]
pub struct Chest {
    pub hex_coord: HexCoord,
    pub contents: Vec<(usize, u32)>,
}

} // verus!
