//! A linter for Ethereum Improvement Proposals: a preamble of `name: value`
//! headers between two `---` lines, followed by a markdown body.

pub mod builder;
pub mod collate;
pub mod config;
pub mod dates;
pub mod json;
pub mod linter;
pub mod lints;
pub mod modifiers;
pub mod node_text;
pub mod pattern;
pub mod preamble;
pub mod process;
pub mod search;
pub mod snippets;
pub mod text;
pub mod tree;

use vstd::prelude::*;

verus! {

} // verus!
