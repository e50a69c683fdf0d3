//! The two backing stores: dense columnar tables (one slot per row per
//! column, rows kept contiguous by swap-remove) and per-component sparse
//! stores addressed by entity index.

use vstd::prelude::*;
use crate::entity::Entity;
use crate::sorted::sorted_strict;

verus! {

/// One stored component value. Values are fixed-stride words tagged with
/// the change-detection stamps of the slot.
pub type Val = u64;

/// One cell of storage: the value plus its "added" and "changed" stamps.
#[derive(Clone, Copy, PartialEq, Eq, Structural, Debug)]
pub struct Slot {
    pub value: Val,
    pub added: u32,
    pub changed: u32,
}

/// A densely packed column: the slots of one component kind, one per table
/// row.
pub struct Column {
    pub component_id: usize,
    pub slots: Vec<Slot>,
}

/// Columnar storage for one set of table-backed components. All columns
/// share row indices; row `i` of every column belongs to `entity_ids[i]`.
pub struct Table {
    pub columns: Vec<Column>,
    pub entity_ids: Vec<Entity>,
}

impl Table {
    /// The component ids of the columns, in column order.
    pub open spec fn col_ids(self) -> Seq<usize> {
        self.columns@.map_values(|c: Column| c.component_id)
    }

    pub open spec fn rows(self) -> int {
        self.entity_ids@.len() as int
    }

    /// Columns are sorted by component id and all have exactly one slot per
    /// row.
    pub open spec fn wf(self) -> bool {
        &&& sorted_strict(self.col_ids())
        &&& forall|c: int|
            0 <= c < self.columns@.len() ==> (#[trigger] self.columns@[c]).slots@.len()
                == self.entity_ids@.len()
    }

    pub open spec fn has_col(self, cid: usize) -> bool {
        self.col_ids().contains(cid)
    }

    /// The index of the column storing `cid`; meaningful when `has_col`.
    pub open spec fn col_index(self, cid: usize) -> int {
        choose|c: int| 0 <= c < self.columns@.len() && self.columns@[c].component_id == cid
    }

    /// The slot of component `cid` at `row`.
    pub open spec fn slot_of(self, cid: usize, row: int) -> Slot {
        self.columns@[self.col_index(cid)].slots@[row]
    }

    /// In a well-formed table, `col_index` inverts column order: the column
    /// at `c` is the unique column of its component id.
    pub proof fn lemma_col_index(self, c: int)
        requires
            self.wf(),
            0 <= c < self.columns@.len(),
        ensures
            self.has_col(self.columns@[c].component_id),
            self.col_index(self.columns@[c].component_id) == c,
    {
        let cid = self.columns@[c].component_id;
        assert(self.col_ids()[c] == cid);
        assert(self.col_ids().contains(cid));
        let c2 = self.col_index(cid);
        assert(0 <= c2 < self.columns@.len() && self.columns@[c2].component_id == cid);
        if c2 < c {
            assert(self.col_ids()[c2] < self.col_ids()[c]);
        } else if c < c2 {
            assert(self.col_ids()[c] < self.col_ids()[c2]);
        }
    }

    /// The column index storing component `cid`, or absent if the table has
    /// no such column.
    pub fn find_column(&self, cid: usize) -> (r: Option<usize>)
        requires
            self.wf(),
        ensures
            match r {
                Some(c) => c < self.columns@.len() && self.columns@[c as int].component_id == cid
                    && self.has_col(cid) && self.col_index(cid) == c,
                None => !self.has_col(cid),
            },
    {
        let mut c: usize = 0;
        while c < self.columns.len()
            invariant
                self.wf(),
                c <= self.columns@.len(),
                forall|k: int| 0 <= k < c ==> self.columns@[k].component_id != cid,
            decreases self.columns@.len() - c,
        {
            if self.columns[c].component_id == cid {
                proof {
                    self.lemma_col_index(c as int);
                }
                return Some(c);
            }
            c += 1;
        }
        proof {
            if self.has_col(cid) {
                let k = choose|k: int|
                    0 <= k < self.col_ids().len() && self.col_ids()[k] == cid;
                assert(self.columns@[k].component_id == cid);
            }
        }
        None
    }

    /// Reads the whole row as `(component id, slot)` pairs in column order.
    pub fn read_row(&self, row: usize) -> (out: Vec<(usize, Slot)>)
        requires
            self.wf(),
            (row as int) < self.rows(),
        ensures
            out@.len() == self.columns@.len(),
            forall|k: int|
                0 <= k < out@.len() ==> #[trigger] out@[k] == (
                self.columns@[k].component_id,
                self.columns@[k].slots@[row as int],
                ),
    {
        let mut out: Vec<(usize, Slot)> = Vec::new();
        let mut c: usize = 0;
        while c < self.columns.len()
            invariant
                self.wf(),
                (row as int) < self.rows(),
                c <= self.columns@.len(),
                out@.len() == c as int,
                forall|k: int|
                    0 <= k < c ==> #[trigger] out@[k] == (
                    self.columns@[k].component_id,
                    self.columns@[k].slots@[row as int],
                    ),
            decreases self.columns@.len() - c,
        {
            let id = self.columns[c].component_id;
            let slot = self.columns[c].slots[row];
            out.push((id, slot));
            c += 1;
        }
        out
    }

    /// Removes one row, keeping rows contiguous: the last row is swapped
    /// into the vacated slot. Reports the entity whose row moved, absent
    /// when the removed row was the last one.
    pub fn swap_remove_row(&mut self, row: usize) -> (moved: Option<Entity>)
        requires
            old(self).wf(),
            (row as int) < old(self).rows(),
        ensures
            final(self).wf(),
            final(self).col_ids() == old(self).col_ids(),
            final(self).columns@.len() == old(self).columns@.len(),
            final(self).entity_ids@ == old(self).entity_ids@.update(
                row as int,
                old(self).entity_ids@.last(),
            ).drop_last(),
            forall|c: int|
                0 <= c < old(self).columns@.len() ==> (#[trigger] final(self).columns@[c]).slots@
                    == old(self).columns@[c].slots@.update(
                    row as int,
                    old(self).columns@[c].slots@.last(),
                ).drop_last() && final(self).columns@[c].component_id
                    == old(self).columns@[c].component_id,
            moved == (if row as int + 1 == old(self).rows() {
                None::<Entity>
            } else {
                Some(old(self).entity_ids@.last())
            }),
    {
        let n = self.entity_ids.len();
        let moved: Option<Entity> = if row + 1 == n {
            None
        } else {
            Some(self.entity_ids[n - 1])
        };
        self.entity_ids.swap_remove(row);
        let mut c: usize = 0;
        while c < self.columns.len()
            invariant
                c <= self.columns@.len(),
                self.columns@.len() == old(self).columns@.len(),
                self.entity_ids@ == old(self).entity_ids@.update(
                    row as int,
                    old(self).entity_ids@.last(),
                ).drop_last(),
                forall|k: int|
                    0 <= k < c ==> (#[trigger] self.columns@[k]).slots@
                        == old(self).columns@[k].slots@.update(
                        row as int,
                        old(self).columns@[k].slots@.last(),
                    ).drop_last() && self.columns@[k].component_id
                        == old(self).columns@[k].component_id,
                forall|k: int|
                    c <= k < self.columns@.len() ==> #[trigger] self.columns@[k]
                        == old(self).columns@[k],
                forall|k: int|
                    0 <= k < self.columns@.len() ==> (#[trigger] old(self).columns@[k]).slots@.len()
                        == old(self).entity_ids@.len(),
                (row as int) < old(self).entity_ids@.len(),
            decreases self.columns@.len() - c,
        {
            self.columns[c].slots.swap_remove(row);
            c += 1;
        }
        proof {
            assert(final(self).col_ids() =~= old(self).col_ids());
        }
        moved
    }

    /// Appends one row at the end: `pairs[k]` fills column `k`.
    pub fn push_row(&mut self, e: Entity, pairs: &Vec<(usize, Slot)>)
        requires
            old(self).wf(),
            pairs@.len() == old(self).columns@.len(),
            forall|k: int|
                0 <= k < pairs@.len() ==> (#[trigger] pairs@[k]).0
                    == old(self).columns@[k].component_id,
        ensures
            final(self).wf(),
            final(self).col_ids() == old(self).col_ids(),
            final(self).columns@.len() == old(self).columns@.len(),
            final(self).entity_ids@ == old(self).entity_ids@.push(e),
            forall|c: int|
                0 <= c < old(self).columns@.len() ==> (#[trigger] final(self).columns@[c]).slots@
                    == old(self).columns@[c].slots@.push(pairs@[c].1) && final(self).columns@[c].component_id == old(self).columns@[c].component_id,
    {
        self.entity_ids.push(e);
        let mut c: usize = 0;
        while c < self.columns.len()
            invariant
                c <= self.columns@.len(),
                self.columns@.len() == old(self).columns@.len(),
                self.entity_ids@ == old(self).entity_ids@.push(e),
                pairs@.len() == old(self).columns@.len(),
                forall|k: int|
                    0 <= k < old(self).columns@.len() ==> (#[trigger] old(
                        self,
                    ).columns@[k]).slots@.len() == old(self).entity_ids@.len(),
                forall|k: int|
                    0 <= k < c ==> (#[trigger] self.columns@[k]).slots@
                        == old(self).columns@[k].slots@.push(pairs@[k].1) && self.columns@[
                        k
                    ].component_id == old(self).columns@[k].component_id,
                forall|k: int|
                    c <= k < self.columns@.len() ==> #[trigger] self.columns@[k]
                        == old(self).columns@[k],
            decreases self.columns@.len() - c,
        {
            let slot = pairs[c].1;
            self.columns[c].slots.push(slot);
            c += 1;
        }
        proof {
            assert(final(self).col_ids() =~= old(self).col_ids());
        }
    }

    /// Overwrites the slot of column `c` at `row`.
    pub fn write_slot(&mut self, c: usize, row: usize, slot: Slot)
        requires
            c < old(self).columns@.len(),
            (row as int) < old(self).columns@[c as int].slots@.len(),
        ensures
            final(self).entity_ids@ == old(self).entity_ids@,
            final(self).columns@.len() == old(self).columns@.len(),
            forall|k: int|
                0 <= k < old(self).columns@.len() && k != c as int ==> #[trigger] final(self).columns@[k] == old(self).columns@[k],
            final(self).columns@[c as int].component_id == old(self).columns@[
                c as int
            ].component_id,
            final(self).columns@[c as int].slots@ == old(self).columns@[c as int].slots@.update(
                row as int,
                slot,
            ),
    {
        self.columns[c].slots[row] = slot;
    }
}

/// The sparse backing store of one component kind: at most one heap cell
/// per entity index.
pub struct SparseStore {
    pub cells: Vec<Option<Slot>>,
}

impl SparseStore {
    /// Entity index `i` has a cell.
    pub open spec fn has(self, i: int) -> bool {
        0 <= i < self.cells@.len() && self.cells@[i] is Some
    }

    /// The cell of entity index `i`; meaningful when `has(i)`.
    pub open spec fn slot(self, i: int) -> Slot {
        self.cells@[i].unwrap()
    }

    pub fn new() -> (r: SparseStore)
        ensures
            r.cells@.len() == 0,
            forall|i: int| !r.has(i),
    {
        SparseStore { cells: Vec::new() }
    }

    /// The cell of an entity index, if present.
    pub fn get(&self, index: u32) -> (r: Option<Slot>)
        ensures
            r == (if self.has(index as int) {
                Some(self.slot(index as int))
            } else {
                None::<Slot>
            }),
    {
        if (index as usize) < self.cells.len() {
            self.cells[index as usize]
        } else {
            None
        }
    }

    /// Creates or overwrites the cell of an entity index.
    pub fn insert_cell(&mut self, index: u32, slot: Slot)
        ensures
            final(self).has(index as int),
            final(self).slot(index as int) == slot,
            forall|i: int|
                i != index as int ==> (#[trigger] final(self).has(i)) == old(self).has(i),
            forall|i: int|
                i != index as int && old(self).has(i) ==> (#[trigger] final(self).slot(i)) == old(
                    self,
                ).slot(i),
    {
        while self.cells.len() <= index as usize
            invariant
                forall|i: int|
                    #![auto]
                    old(self).has(i) == self.has(i) && (old(self).has(i) ==> self.slot(i) == old(self).slot(i)),
                self.cells@.len() >= old(self).cells@.len(),
            decreases index as int + 1 - self.cells@.len(),
        {
            self.cells.push(None);
        }
        self.cells[index as usize] = Some(slot);
    }

    /// Removes the cell of an entity index, if any.
    pub fn remove_cell(&mut self, index: u32)
        ensures
            !final(self).has(index as int),
            forall|i: int|
                i != index as int ==> (#[trigger] final(self).has(i)) == old(self).has(i),
            forall|i: int|
                i != index as int && old(self).has(i) ==> (#[trigger] final(self).slot(i)) == old(
                    self,
                ).slot(i),
    {
        if (index as usize) < self.cells.len() {
            self.cells[index as usize] = None;
        }
    }
}

} // verus!
