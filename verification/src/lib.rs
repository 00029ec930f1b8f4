//! A compiler from parsing expression grammars to backtracking
//! recursive-descent parsers.
//!
//! `grammar` holds the grammar model. `compile` turns a grammar into the text
//! of its parser: the code is built as a tree (`code`), laid out as text
//! (`render`), and is the text of a program of a small target language
//! (`target`, `lower`). `matcher` says what matching is, on the grammar
//! itself, with the primitives of `runtime` and the outcomes of `value`;
//! `laws` holds what follows for every grammar and input. `meaning` says what
//! a program of the target language computes; `correct` proves that the
//! emitted program ends with every outcome that the matcher gives, and
//! `converse` that it ends with no other value.

pub mod code;
pub mod compile;
pub mod converse;
pub mod correct;
pub mod grammar;
pub mod laws;
pub mod lower;
pub mod matcher;
pub mod meaning;
pub mod render;
pub mod runtime;
pub mod target;
pub mod text;
pub mod value;
