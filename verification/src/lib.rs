//! Utilities for tracking multiple errors.
//!
//! Work on many items often has to report every error it met, not only the
//! first: a compiler names all the errors of a build, a validator all the
//! files that are wrong. [`ErrorVec`] is the list in which such errors are
//! gathered, and [`ResultIterator`] fills one from any iterator over `Result`
//! values.
//!
//! - [`errorvec`]: the list, how it collapses into one `Result`, and how it is
//!   printed.
//! - [`resiter`]: gathering from an iterator, in one pass.
//! - [`partition`]: what gathering keeps of a sequence of outcomes, and what
//!   holds of it.
//! - [`render`]: the text of a list of messages.
//!
//! A list without errors means success; that is the only decision made here.
//! No error is dropped, merged or moved on the way.

pub mod errorvec;
pub mod partition;
pub mod render;
pub mod resiter;

pub use self::errorvec::ErrorVec;
pub use self::resiter::ResultIterator;
