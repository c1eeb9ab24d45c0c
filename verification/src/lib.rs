//! A registry of uniquely owned creatures ("kitties").
//!
//! Each creature carries a fixed 16-byte genome and is identified by a
//! monotonically increasing id. The registry supports minting a creature
//! with a genome derived from an external seed, breeding two creatures
//! into one whose genome is combined bit by bit from its parents, and
//! transferring a creature between owners, while keeping a dense,
//! gap-free per-owner index of held ids.

use vstd::prelude::*;

pub mod dna;
pub mod entropy;
pub mod registry;

verus! {

/// Index type for creature ids and list positions. Ids are allocated
/// densely from zero; allocation fails cleanly once `KittyIndex::MAX`
/// ids have been handed out.
pub type KittyIndex = u16;

/// An opaque, externally authenticated account identity, comparable
/// for equality.
pub type AccountId = u64;

/// A creature: a fixed 16-byte genome. Immutable once created.
#[derive(Clone, Copy)]
pub struct Kitty(pub [u8; 16]);

} // verus!
