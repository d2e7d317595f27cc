//! Cache a function's results in a map.
//!
//! [`cached`] and [`cached_ord`] wrap a function of one argument so that it
//! is invoked at most once for each argument: the first call with an
//! argument invokes the function and stores a clone of the result, every
//! later call with an equal argument returns a clone of the stored result.
pub mod fx;
pub mod hashed;
pub mod laws;
pub mod model;
pub mod ordered;

pub use hashed::{cached, Cached};
pub use ordered::{cached_ord, CachedOrd};
