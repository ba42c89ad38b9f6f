//! Checks a text against the word list of a language and reports the words
//! that the list lacks, optionally with the text's letter count.
//!
//! - `text`: how a raw input becomes tokens.
//! - `dictionary`: languages, and the word sets built from their word lists.
//! - `checker`: the list of unknown tokens and the report shown for a check.
//! - `laws`: properties that relate these functions, proved.
use vstd::prelude::*;

pub mod checker;
pub mod dictionary;
pub mod laws;
pub mod text;

verus! {

} // verus!
