//! Renumbering a scope when an item moves into it at a given index.

use crate::db::Keyed;
use crate::rank::{sort, stable_sort};
use crate::store::item::Item;
use vstd::prelude::*;

verus! {

/// A new order value for the item with the id.
#[derive(Debug, Clone, Copy, PartialEq, Eq, Structural)]
pub struct OrdChange {
    pub id: i64,
    pub ord: i64,
}

impl Keyed for OrdChange {
    open spec fn key(&self) -> i64 {
        self.id
    }

    fn id(&self) -> (id: i64) {
        self.id
    }

    fn copy(&self) -> (copy: Self) {
        *self
    }
}

/// The order values after a move: that of the item that moves, and those of
/// the items that it joins, in their order.
#[derive(Debug)]
pub struct MovePlan {
    pub ord: i64,
    pub siblings: Vec<OrdChange>,
}

/// The index among `len` siblings at which an item lands that asks for
/// `index`: an index below the first is the first, one beyond the end is the end.
pub open spec fn landing_slot(index: i64, len: int) -> int {
    if index < 0 {
        0
    } else if index > len {
        len
    } else {
        index as int
    }
}

/// The order value of the sibling of the given rank when an item lands in
/// `slot`: the siblings and the item are numbered from 1 in their new order.
pub open spec fn landing_ord(rank: int, slot: int) -> int {
    if rank < slot {
        rank + 1
    } else {
        rank + 2
    }
}

/// Numbers a scope anew for an item that moves into it. `siblings` are the
/// active items of the scope without the item that moves, in any order; they
/// keep the order in which they sort. The item lands at `index` among them,
/// or at the nearest end, and all are numbered from 1 without gaps.
pub fn plan_move(siblings: Vec<Item>, index: i64) -> (plan: MovePlan)
    requires
        siblings@.len() < i64::MAX - 1,
    ensures
        plan.ord == landing_slot(index, siblings@.len() as int) + 1,
        plan.siblings@.len() == siblings@.len(),
        forall|rank: int|
            0 <= rank < siblings@.len() ==> (#[trigger] plan.siblings@[rank]).id == stable_sort(
                siblings@,
            )[rank].id && plan.siblings@[rank].ord == landing_ord(
                rank,
                landing_slot(index, siblings@.len() as int),
            ),
{
    let sorted = sort(siblings);
    let len = sorted.len();
    let slot: usize = if index < 0 {
        0
    } else if index as u64 > len as u64 {
        len
    } else {
        index as usize
    };
    let mut changes: Vec<OrdChange> = Vec::new();
    let mut rank: usize = 0;
    while rank < len
        invariant
            rank <= len,
            len == sorted@.len(),
            len < i64::MAX - 1,
            slot <= len,
            changes@.len() == rank,
            forall|r: int|
                0 <= r < rank ==> (#[trigger] changes@[r]).id == sorted@[r].id && changes@[r].ord
                    == landing_ord(r, slot as int),
        decreases len - rank,
    {
        let ord: i64 = if rank < slot {
            rank as i64 + 1
        } else {
            rank as i64 + 2
        };
        changes.push(OrdChange { id: sorted[rank].id, ord });
        rank += 1;
    }
    MovePlan { ord: slot as i64 + 1, siblings: changes }
}

} // verus!
