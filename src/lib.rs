//! Lays out rows of styled content blocks as tables of render operations.
//!
//! Inline markup (`attribute:value;`) is cut into tokens (`token`), tokens
//! resolve into a `Style` (`style`, with the colour table in `color`), a
//! per-row heuristic decides table frames (`border`), and `layout::build`
//! turns a `Document` into one `Table` per row.
use vstd::prelude::*;

pub mod color;
pub mod text;
pub mod token;
pub mod style;
pub mod document;
pub mod border;
pub mod layout;

verus! {

} // verus!
