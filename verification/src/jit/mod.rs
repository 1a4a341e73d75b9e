//! The state and the data structures that compiled routines use at run
//! time: the cache of compiled routines, jitter accounting, and the arrays
//! and strings that routines build.

pub mod cache;
pub mod hft;
pub mod memory;
pub mod strings;
