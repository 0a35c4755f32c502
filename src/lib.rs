//! A registry of kitties: immutable 16-byte genomes under dense ids, with a per-owner index of
//! the ids each account holds, kept compact by swap-remove on transfer.

use vstd::prelude::*;

pub mod dna;
pub mod ownership;
pub mod module;

pub use dna::{combine_dna, Kitty};
pub use module::{Error, Module, Trait};
pub use ownership::{compaction, OwnershipIndex};
