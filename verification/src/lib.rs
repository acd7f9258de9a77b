//! An extensible array: a radix tree that maps `usize` indices to integers and owned pointers.
//!
//! [`XArray`] is the array; [`XArray4`] and [`XArray6`] are common configurations. What it holds
//! at an index is an [`Entry`], and a load hands out a [`BorrowEntry`]. A mutable reference is
//! required for writes, a shared reference for reads; there is no internal locking.
//!
//! # Data structure
//!
//! Each node holds `SIZE` slots (where `SIZE = 1 << SHIFT`), and the tree has
//! `ceil(usize::BITS / SHIFT)` levels. The slot of an index in a node at a level is
//! `(index >> (level * SHIFT)) & (SIZE - 1)`: level 0, the leaves, takes the lowest bits. With a
//! shift of 6 on a 64-bit machine there are 11 levels:
//!
//! ```text
//!   +---------+---------+---------------+---------+---------+---------+
//!   | level10 | level 9 |      ...      | level 2 | level 1 | level 0 |
//!   | [63:60] | [59:54] |               | [17:12] | [11:6]  |  [5:0]  |
//!   +---------+---------+---------------+---------+---------+---------+
//! ```
//!
//! Nodes are allocated when a store needs them and freed when an erase empties them, so that the
//! entries alone determine which nodes there are.
//!
//! # What is proved
//!
//! The contracts of [`XArray`] speak of the map of its entries. [`laws`] states what follows for
//! sequences of operations, for the words that slots hold and for the paths that indices take.

pub mod entry;
pub mod error;
pub mod foreign;
pub mod index;
pub mod laws;
mod node;
pub mod spare;
mod try_box;
pub mod value;
pub mod word;
pub mod xarray;

pub use entry::{BorrowEntry, Entry};
pub use error::Error;
pub use foreign::ForeignOwnable;
pub use spare::SpareNodes;
pub use value::{Value, MAX_VALUE};
pub use xarray::{XArray, XArray4, XArray6, MIN_ALIGN};
