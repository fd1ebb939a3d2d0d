//! A parser for Adobe Font Metrics (AFM) text: a buffer of lines becomes a
//! sequence of typed records, one per line.
use vstd::prelude::*;

pub mod text;
pub mod lexical;
pub mod value;
pub mod metrics;
pub mod document;

pub use document::{parse, Expected, Line, ParseError};
pub use metrics::CharMetrics;
pub use value::Value;

verus! {

} // verus!
