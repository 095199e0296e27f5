//! What can go wrong while a grammar text of the older syntax is read.

use vstd::prelude::*;

verus! {

/// Where a node stands in the text: in bytes, and in rows and columns.
#[derive(Clone, Copy, Debug, PartialEq, Eq, Structural)]
pub struct NodeRange {
    /// Byte offset at which the node starts.
    pub start_byte: usize,
    /// Byte offset at which the node ends.
    pub end_byte: usize,
    /// Row in which the node starts, counted from 0.
    pub start_row: usize,
    /// Column in which the node starts, counted from 0.
    pub start_column: usize,
    /// Row in which the node ends, counted from 0.
    pub end_row: usize,
    /// Column in which the node ends, counted from 0.
    pub end_column: usize,
}

/// What went wrong.
#[derive(Clone, Debug)]
pub enum YGGError {
    /// The parser does not accept the language.
    LanguageError {
        /// What the parser said.
        error: String,
    },
    /// A text or a number cannot be read.
    TextDecodeFailed {
        /// What the decoder said.
        error: String,
    },
    /// A node that has to be there is not.
    NodeMissing {
        /// The name of the node.
        name: String,
        /// Where it has to stand.
        range: NodeRange,
    },
    /// A declaration that has to be there is not.
    InfoMissing {
        /// What is missing.
        text: String,
    },
    /// The parser could not be set up.
    InitializationFailed,
}

impl YGGError {
    /// The node `name` is missing at `range`.
    pub fn node_missing(name: &str, range: NodeRange) -> (e: YGGError)
        ensures
            e matches YGGError::NodeMissing { name: n, range: r } && n@ == name@ && r == range,
    {
        YGGError::NodeMissing { name: name.to_owned(), range }
    }

    /// The parser could not be set up.
    pub fn init_fail() -> (e: YGGError)
        ensures
            e is InitializationFailed,
    {
        YGGError::InitializationFailed
    }

    /// A text or a number cannot be read; `e` says why.
    pub fn text_decode_failed(e: &str) -> (err: YGGError)
        ensures
            err matches YGGError::TextDecodeFailed { error } && error@ == e@,
    {
        YGGError::TextDecodeFailed { error: e.to_owned() }
    }

    /// A declaration is missing; `e` says which.
    pub fn info_missing(e: &str) -> (err: YGGError)
        ensures
            err matches YGGError::InfoMissing { text } && text@ == e@,
    {
        YGGError::InfoMissing { text: e.to_owned() }
    }

    /// The parser does not accept the language; `e` is what it said.
    pub fn language_error(e: &str) -> (err: YGGError)
        ensures
            err matches YGGError::LanguageError { error } && error@ == e@,
    {
        YGGError::LanguageError { error: e.to_owned() }
    }
}

} // verus!
