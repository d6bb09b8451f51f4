//! An in-memory cache for raw git objects, bounded by the bytes it holds, and
//! the resolution of an object id down to an object of a wanted kind.
pub mod cache;
pub mod kind;
pub mod object;
