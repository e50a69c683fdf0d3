//! An in-memory structured-data store that attaches an open, dynamically
//! changing set of typed values ("components") to stable identifiers
//! ("entities"), keeping same-shaped entities packed in dense columnar
//! tables and relocating a record's data whenever its shape changes.
//!
//! The crate verifies the structural core: the archetype registry with its
//! memoized transition graph, the dual dense/sparse backing stores, the
//! swap-compacting relocation algorithms, the entity-location directory,
//! and the change-tick bookkeeping.

pub mod access;
pub mod apply;
pub mod archetype;
pub mod bundle;
pub mod component;
pub mod storage;
pub mod entity;
pub mod entity_ref;
pub mod graph;
pub mod laws;
pub mod mutate;
pub mod ops;
pub mod sorted;
pub mod world;
