//! An interactive memory-accumulation demonstrator.
//!
//! The library builds an inverse index (a mapping from 20-byte reference
//! values to sets of 16-byte keys) out of randomly drawn pairs, using one of
//! three fill strategies that differ only in how eagerly they materialize the
//! drawn pairs before inserting them. The surrounding interactive driver's
//! decisions live here too; reading lines, printing, timing and the
//! allocator-trim call are left to the binary around the library.

pub mod bytes;
pub mod driver;
pub mod fill;
pub mod index;
pub mod laws;
pub mod pairs;
pub mod parse;

pub use fill::{fill_map, fill_map_iter, fill_map_light};
pub use index::InverseIndex;
pub use pairs::{BigStruct, PairGenerator, generate_random_pairs};
