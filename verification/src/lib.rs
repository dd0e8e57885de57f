//! Concurrency-styled single-slot value holders and the composite
//! structures built from them.
//!
//! The heart of the crate is a pair of cell types: [`data_access::Da`],
//! whose slot always holds exactly one value, and [`data_access::Oda`],
//! whose slot holds zero or one values.  A read hands back a
//! reference-counted snapshot that later writes never touch: a write
//! replaces the slot's reference, it never mutates the referenced value
//! in place.  Exclusive access to a cell is expressed through `&mut`
//! borrows, the ownership analogue of holding the cell's lock; an
//! operation that must change several cells indivisibly borrows them
//! all at once through [`locking_mutate`].
//!
//! On top of the cells sit two composites: [`vec::CellVec`], a growable
//! indexable sequence whose capacity, length and storage live in three
//! cooperating cells, and [`hash::CellHashMap`], a fixed-bucket-count
//! hash table whose buckets are ordered chains of entry nodes.

pub mod data_access;
pub mod hash;
pub mod locking_mutate;
pub mod vec;

pub use data_access::Da;
pub use data_access::Oda;
