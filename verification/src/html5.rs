//! HTML5 parsing support: the DOM's plain data types (`dom`), the input
//! preprocessing, code-point classes, streams and tokens of the tokenizer
//! (`parse`), the tokens and stream of the standalone tokenizer
//! (`tokenize`), the document tree with the first insertion modes
//! (`tree_builder`), and the in-body insertion mode (`in_body`).
use vstd::prelude::*;

pub mod dom;
pub mod in_body;
pub mod parse;
pub mod tokenize;
pub mod tree_builder;

verus! {

} // verus!
