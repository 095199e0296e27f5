//! What a parser that builds values hands back.

use crate::str2ast::ParseState;
use vstd::prelude::*;

verus! {

/// What a parser expected where it failed.
#[derive(Clone, Debug)]
pub enum IErrorKind {
    /// The code point.
    Character(char),
    /// A code point between the two, both included.
    CharacterRange(char, char),
    /// The text.
    Text(String),
    /// Nothing was tried yet; the text says by whom.
    Uninitialized(String),
}

/// The failure of a parser: what it expected.
#[derive(Clone, Debug)]
pub struct IError {
    /// What was expected.
    pub kind: IErrorKind,
}

/// The model of what a parser expected.
pub enum ExpectedView {
    Character(char),
    CharacterRange(char, char),
    Text(Seq<char>),
    Uninitialized(Seq<char>),
}

impl View for IError {
    type V = ExpectedView;

    open spec fn view(&self) -> ExpectedView {
        match self.kind {
            IErrorKind::Character(c) => ExpectedView::Character(c),
            IErrorKind::CharacterRange(a, b) => ExpectedView::CharacterRange(a, b),
            IErrorKind::Text(s) => ExpectedView::Text(s@),
            IErrorKind::Uninitialized(s) => ExpectedView::Uninitialized(s@),
        }
    }
}

impl IError {
    /// The code point `c` was expected.
    pub fn excepted_character(c: char) -> (e: IError)
        ensures
            e@ == ExpectedView::Character(c),
    {
        IError { kind: IErrorKind::Character(c) }
    }

    /// A code point between `s` and `e`, both included, was expected.
    pub fn excepted_character_range(s: char, e: char) -> (err: IError)
        ensures
            err@ == ExpectedView::CharacterRange(s, e),
    {
        IError { kind: IErrorKind::CharacterRange(s, e) }
    }

    /// The text `s` was expected.
    pub fn excepted_string(s: &'static str) -> (e: IError)
        ensures
            e@ == ExpectedView::Text(s@),
    {
        IError { kind: IErrorKind::Text(s.to_owned()) }
    }

    /// Nothing was tried yet; `s` says by whom.
    pub fn uninitialized(s: &'static str) -> (e: IError)
        ensures
            e@ == ExpectedView::Uninitialized(s@),
    {
        IError { kind: IErrorKind::Uninitialized(s.to_owned()) }
    }

    /// A copy.
    pub fn duplicate(&self) -> (e: IError)
        ensures
            e@ == self@,
    {
        match &self.kind {
            IErrorKind::Character(c) => IError { kind: IErrorKind::Character(*c) },
            IErrorKind::CharacterRange(a, b) => IError { kind: IErrorKind::CharacterRange(*a, *b) },
            IErrorKind::Text(s) => IError { kind: IErrorKind::Text(s.clone()) },
            IErrorKind::Uninitialized(s) => IError { kind: IErrorKind::Uninitialized(s.clone()) },
        }
    }
}

/// A state after a match, and the value that was built.
pub type Parsed<'i, T> = (ParseState<'i>, T);

/// The state and the value after a match, or what was expected.
pub type IResult<'i, T> = Result<Parsed<'i, T>, IError>;

/// The state and the value after a match, or what was expected.
pub type YResult<'i, T> = Result<Parsed<'i, T>, IError>;

} // verus!
