//! Bundle descriptors: a bundle is a fixed set of component kinds moved
//! atomically. Each distinct sorted id list gets one bundle id, with the
//! ids already partitioned by storage classification.

use vstd::prelude::*;

verus! {

/// The canonical description of one bundle shape.
pub struct BundleInfo {
    /// All component ids of the bundle, sorted strictly.
    pub component_ids: Vec<usize>,
    /// The table-backed subset, sorted strictly.
    pub table_components: Vec<usize>,
    /// The sparse-backed subset, sorted strictly.
    pub sparse_components: Vec<usize>,
}

/// The registry that owns bundle identity: one id per distinct id list.
pub struct Bundles {
    pub list: Vec<BundleInfo>,
}

impl Bundles {
    pub fn new() -> (r: Bundles)
        ensures
            r.list@.len() == 0,
    {
        Bundles { list: Vec::new() }
    }

    /// The id already assigned to this exact id list, if any.
    pub fn find(&self, ids: &Vec<usize>) -> (r: Option<usize>)
        ensures
            match r {
                Some(b) => b < self.list@.len() && self.list@[b as int].component_ids@ == ids@,
                None => forall|b: int|
                    0 <= b < self.list@.len() ==> self.list@[b].component_ids@ != ids@,
            },
    {
        let mut b: usize = 0;
        while b < self.list.len()
            invariant
                b <= self.list@.len(),
                forall|k: int| 0 <= k < b ==> self.list@[k].component_ids@ != ids@,
            decreases self.list@.len() - b,
        {
            if crate::sorted::vec_eq(&self.list[b].component_ids, ids) {
                return Some(b);
            }
            b += 1;
        }
        None
    }
}

} // verus!
