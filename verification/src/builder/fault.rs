//! What can be wrong with a parse tree.

use crate::errors::{ErrorKind, InputLocation};
use vstd::prelude::*;

verus! {

/// What is wrong.
#[derive(Clone, Debug)]
pub enum BuildFault {
    /// A node is not of the shape that was asked for.
    InvalidNode {
        /// What was asked for.
        expect: String,
    },
    /// A tag or an annotation that is not known, or that stands where none
    /// can stand.
    InvalidTag {
        /// The tag.
        expect: String,
    },
    /// Anything else, with its message.
    CustomError {
        /// Short explanation.
        message: String,
    },
}

/// An error in a grammar text: what is wrong, and where.
#[derive(Clone, Debug)]
pub struct GrammarError {
    /// What is wrong.
    pub fault: BuildFault,
    /// Byte offset in the grammar at which the faulty part starts.
    pub start: usize,
    /// Byte offset in the grammar at which it ends.
    pub end: usize,
}

/// The model of what is wrong.
pub enum FaultView {
    InvalidNode(Seq<char>),
    InvalidTag(Seq<char>),
    CustomError(Seq<char>),
}

/// The model of an error in a grammar text.
pub struct GrammarErrorView {
    pub fault: FaultView,
    pub range: (usize, usize),
}

impl View for GrammarError {
    type V = GrammarErrorView;

    open spec fn view(&self) -> GrammarErrorView {
        GrammarErrorView {
            fault: match self.fault {
                BuildFault::InvalidNode { expect } => FaultView::InvalidNode(expect@),
                BuildFault::InvalidTag { expect } => FaultView::InvalidTag(expect@),
                BuildFault::CustomError { message } => FaultView::CustomError(message@),
            },
            range: (self.start, self.end),
        }
    }
}

/// The models of a row of errors.
pub open spec fn error_views(s: Seq<GrammarError>) -> Seq<GrammarErrorView> {
    Seq::new(s.len(), |i: int| s[i]@)
}

/// The model of an error with its own message.
pub open spec fn custom(message: Seq<char>, start: usize, end: usize) -> GrammarErrorView {
    GrammarErrorView { fault: FaultView::CustomError(message), range: (start, end) }
}

/// The model of an error about a tag.
pub open spec fn bad_tag(tag: Seq<char>, start: usize, end: usize) -> GrammarErrorView {
    GrammarErrorView { fault: FaultView::InvalidTag(tag), range: (start, end) }
}

impl GrammarError {
    /// An error with the message `message` over the bytes from `start` up
    /// to `end`.
    pub fn custom_error(message: &str, start: usize, end: usize) -> (e: GrammarError)
        ensures
            e@ == custom(message@, start, end),
    {
        GrammarError { fault: BuildFault::CustomError { message: message.to_owned() }, start, end }
    }

    /// An error about the tag `tag` over the bytes from `start` up to
    /// `end`.
    pub fn invalid_tag(tag: &str, start: usize, end: usize) -> (e: GrammarError)
        ensures
            e@ == bad_tag(tag@, start, end),
    {
        GrammarError { fault: BuildFault::InvalidTag { expect: tag.to_owned() }, start, end }
    }

    /// An error about a node that is not `expect`, over the bytes from
    /// `start` up to `end`.
    pub fn invalid_node(expect: &str, start: usize, end: usize) -> (e: GrammarError)
        ensures
            e@ == (GrammarErrorView { fault: FaultView::InvalidNode(expect@), range: (start, end) }),
    {
        GrammarError { fault: BuildFault::InvalidNode { expect: expect.to_owned() }, start, end }
    }

    /// What is wrong, as the kind of an error over rules that are named by
    /// texts.
    pub fn into_kind(self) -> (k: ErrorKind<String>)
        ensures
            match self.fault {
                BuildFault::InvalidNode { expect } => k == (ErrorKind::InvalidNode { expect }),
                BuildFault::InvalidTag { expect } => k == (ErrorKind::<String>::InvalidTag {
                    expect,
                }),
                BuildFault::CustomError { message } => k == (ErrorKind::<String>::CustomError {
                    message,
                }),
            },
    {
        match self.fault {
            BuildFault::InvalidNode { expect } => ErrorKind::InvalidNode { expect },
            BuildFault::InvalidTag { expect } => ErrorKind::InvalidTag { expect },
            BuildFault::CustomError { message } => ErrorKind::CustomError { message },
        }
    }

    /// Where the error is.
    pub fn location(&self) -> (l: InputLocation)
        ensures
            l == InputLocation::Span((self.start, self.end)),
    {
        InputLocation::Span((self.start, self.end))
    }
}

} // verus!
