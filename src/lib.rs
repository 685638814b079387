//! Evaluation of tabletop dice notation such as `3d6+2` or `(1d4+1)x3`.
//!
//! An expression is first normalized (whitespace dropped, shorthand rewritten),
//! then parsed into an [`Expr`] tree and evaluated in one of four modes: a
//! random roll, the minimum, the maximum and the exact average.
use vstd::prelude::*;

pub mod bag;
pub mod cli;
pub mod error;
pub mod laws;
pub mod semantics;
pub mod syntax;
pub mod text;

pub use bag::{new_simple_rng, simple_rng, DiceBag, DiceRoll, Fraction};
pub use cli::{sanity_check, Args, InvalidArgumentError};
pub use error::{ErrorKind, SyntaxError};
pub use syntax::{parse, Expr};
pub use text::{chars_of, find_enclosure_from, find_one_of, normalize};

verus! {

} // verus!
