//! Joining of unix-style byte paths without heap allocation for short
//! results.
//!
//! The join engine writes the joined path into a caller-supplied
//! fixed-capacity scratch buffer when it fits, and into a growable
//! fallback buffer otherwise; the returned slice borrows from whichever
//! storage was used.  Its behaviour is pinned byte-for-byte by the
//! contracts, and proved equivalent (up to separator normalisation) to the
//! platform's sequential two-path join.

pub mod equiv;
pub mod join;
pub mod laws;
pub mod model;

pub use equiv::components_of;
pub use equiv::paths_equivalent;
pub use join::join_in_buff;
pub use join::native_join_all;
pub use join::push_native;
pub use model::SEP;
pub use model::TERMINATOR;
