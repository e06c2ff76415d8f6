//! The kitties runtime module, verified.
//!
//! - `dna`: how a child's DNA byte is mixed from its parents' under a selector.
//! - `randomness`: the random value of a call, a BLAKE2b-128 digest of its
//!   SCALE-encoded context.
//! - `owned_kitties`: the doubly linked list of the kitties that each account
//!   owns, kept in a key-value storage.
//! - `kitties`: the market flavour of the module (owners, prices; create,
//!   breed, transfer, ask, buy) and its invariant.
//! - `basic_kitties`: the flavour where the lists alone record ownership.
//! - `indexed_kitties`: the flavour that records ownership by index.
//! - `kitty_design`: the second kitty design, with generations.
//! - `linklist`: a singly linked list of owned-kitty entries.

pub mod dna;
pub mod owned_kitties;
pub mod randomness;
pub mod kitties;
pub mod linklist;
pub mod kitty_design;
pub mod basic_kitties;
pub mod indexed_kitties;
