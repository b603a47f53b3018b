//! Python-style comprehensions for Rust, as token-stream transformers.
//!
//! The library reads the tokens of a comprehension
//!
//! ```text
//! MAPPING
//!     for PAT in SEQ
//!     [if COND | if let PAT = EXPR]*
//!     [for PAT in SEQ [if COND | if let PAT = EXPR]*]*
//! ```
//!
//! (or `KEY => VALUE` in place of `MAPPING` for maps) and writes the tokens of
//! the equivalent iterator chain.  The grammar is checked in [`grammar`], the
//! generated code is described in [`expand`], and [`meaning`] proves that the
//! generated chain yields exactly the items of the comprehension.
pub mod bridge;
pub mod tokens;
pub mod grammar;
pub mod expand;
pub mod meaning;
pub mod macros;
pub mod laws;
pub mod coverage;
pub mod stream;
pub mod tiling;

pub use macros::{comp, map_comp, par_comp, set_comp, vec_comp};
