//! A map that creates a random handle on insertion, to use when retrieving.
use vstd::prelude::*;

pub mod handle;
pub mod table;
pub mod map;
pub mod iter;
pub mod laws;

pub use handle::Handle;
pub use map::RandMap;
pub use iter::{Iter, IterMut};
