//! The items of an OpenBar instance, as the notifier tracks them.

use vstd::prelude::*;

verus! {

/// Whether an item can currently be bought.
#[derive(Clone, Copy, Debug, PartialEq, Eq, Structural)]
pub enum ItemState {
    ItemBuyable,
    ItemNotBuyable,
}

/// An item of the OpenBar catalogue.
///
/// `id` is the item's UUID read as a 128-bit big-endian integer, so that the
/// order of ids is the order of the UUIDs.
#[derive(Debug)]
pub struct Item {
    pub id: u128,
    pub name: String,
    pub state: ItemState,
    pub amount_left: i64,
}

impl Clone for Item {
    fn clone(&self) -> (r: Self)
        ensures
            r == *self,
    {
        Item {
            id: self.id,
            name: self.name.clone(),
            state: self.state,
            amount_left: self.amount_left,
        }
    }
}

} // verus!
