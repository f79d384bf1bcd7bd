//! Comprehensions in the style of Python's list and generator expressions.
//!
//! A comprehension walks a source sequence, keeps the items that a condition
//! accepts, and produces the value of an expression for each kept item, in
//! the order of the source. `vecc` builds the whole result at once;
//! `GeneratorIterator` produces it lazily, one value per call of `next`.
use vstd::prelude::*;

mod selection;
mod generator;
mod comprehension;
mod containers;

pub use selection::kept;
pub use generator::GeneratorIterator;
pub use comprehension::{vecc, verdicts, images, callable_on};
pub use containers::{map_of, hashsetc, btreesetc, hashmapc, btreemapc};
