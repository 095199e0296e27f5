//! A parser state for parsers that build values as they go.
//!
//! The state is a place in the input text. A parser takes it by value and
//! hands back the state behind what it matched together with a value, or
//! what it expected where it failed.

use crate::position::{occurs_at, Position};
use crate::results::{ExpectedView, IError, IResult, Parsed};
use crate::text::{byte_len, char_index, chars_from, on_boundary};
use vstd::prelude::*;

verus! {

/// A place in an input text, with the last failure of an alternative.
#[derive(Debug)]
pub struct ParseState<'i> {
    /// The input text.
    pub input: &'i str,
    /// The byte offset of the place.
    pub start_offset: usize,
    /// What the alternative that failed last expected.
    pub error: Option<IError>,
}

/// The state of a parser that builds values.
pub type YState<'i> = ParseState<'i>;

/// What a choice between parsers has found so far.
#[derive(Debug)]
pub struct ChoiceHelper<'a, T> {
    /// The state at which every alternative starts.
    pub state: ParseState<'a>,
    /// What the first alternative that matched gave.
    pub result: Option<Parsed<'a, T>>,
}

/// True when `f` is a parser over `text`: it may be called on every
/// well-formed state over the text, and after a match its state is a
/// well-formed state over the text that is not before the one it was given.
pub open spec fn is_value_parser<'i, T, F: FnOnce(ParseState<'i>) -> IResult<'i, T>>(
    f: F,
    text: Seq<char>,
) -> bool {
    &&& forall|s: ParseState<'i>| s.wf() && s.input@ == text ==> #[trigger] f.requires((s,))
    &&& forall|s: ParseState<'i>, out: IResult<'i, T>|
        s.wf() && s.input@ == text && #[trigger] f.ensures((s,), out) ==> (out matches Ok(p)
            ==> p.0.wf() && p.0.input@ == text && s.start_offset <= p.0.start_offset)
}

/// True when two states stand at the same place of the same text and keep
/// the same failure.
pub open spec fn same_place<'i>(a: ParseState<'i>, b: ParseState<'i>) -> bool {
    a.input == b.input && a.start_offset == b.start_offset && a.error_view() == b.error_view()
}

/// True when `f` matched as many times in a row as `values` has values,
/// each time moving on and building the next of the values, and so led from
/// `from` to `to`.
pub open spec fn gathers<'i, T, F: Fn(ParseState<'i>) -> IResult<'i, T>>(
    f: F,
    from: ParseState<'i>,
    to: ParseState<'i>,
    values: Seq<T>,
) -> bool
    decreases values.len(),
{
    if values.len() == 0 {
        to == from
    } else {
        exists|mid: ParseState<'i>|
            gathers(f, from, mid, values.drop_last()) && #[trigger] f.ensures(
                (mid,),
                Ok::<Parsed<'i, T>, IError>((to, values.last())),
            ) && mid.start_offset < to.start_offset
    }
}

/// True when a bounded repetition that has come to `last` with `values`
/// stops in the state `end` with the values `all`: at once where there are
/// `max` values, and else with what `f` returns for `last`, which is a match
/// that did not move on, whose value counts, or a failure, which is kept in
/// `failure`.
pub open spec fn gather_stops<'i, T, F: Fn(ParseState<'i>) -> IResult<'i, T>>(
    f: F,
    last: ParseState<'i>,
    values: Seq<T>,
    max: nat,
    end: ParseState<'i>,
    all: Seq<T>,
    failure: Option<IError>,
) -> bool {
    if values.len() == max {
        all == values && end == last && failure is None
    } else {
        exists|out: IResult<'i, T>| #[trigger]
            f.ensures((last,), out) && match out {
                Ok(p) => p.0.start_offset == last.start_offset && all == values.push(p.1) && end
                    == p.0 && failure is None,
                Err(e) => all == values && same_place(end, last) && failure == Some(e),
            }
    }
}

/// True when `r` is the state `end` with the values `all` where these are
/// at least `min`, and else the failure that was kept, or that nothing was
/// tried where none was.
pub open spec fn gather_closes<'i, T>(
    end: ParseState<'i>,
    all: Seq<T>,
    failure: Option<IError>,
    min: nat,
    r: IResult<'i, Vec<T>>,
) -> bool {
    if all.len() >= min {
        r matches Ok(p) && p.0 == end && p.1@ == all
    } else {
        r matches Err(e) && match failure {
            Some(last) => e == last,
            None => e@ == ExpectedView::Uninitialized("match_repeat_m_n"@),
        }
    }
}

/// What a bounded repetition returns that has come to `last` with `values`.
pub open spec fn gather_ends<'i, T, F: Fn(ParseState<'i>) -> IResult<'i, T>>(
    f: F,
    last: ParseState<'i>,
    values: Seq<T>,
    min: nat,
    max: nat,
    r: IResult<'i, Vec<T>>,
) -> bool {
    exists|end: ParseState<'i>, all: Seq<T>, failure: Option<IError>| #[trigger]
        gather_stops(f, last, values, max, end, all, failure) && gather_closes(
            end,
            all,
            failure,
            min,
            r,
        )
}

impl<'i> ParseState<'i> {
    /// The offset is a code point boundary of the text, and the text is
    /// shorter than the largest `usize`.
    pub open spec fn wf(&self) -> bool {
        on_boundary(self.input@, self.start_offset as int) && byte_len(self.input@) < usize::MAX
    }

    /// The code points from the place on.
    pub open spec fn remaining(&self) -> Seq<char> {
        chars_from(self.input@, self.start_offset as int)
    }

    /// Number of code points before the place.
    pub open spec fn index(&self) -> int {
        char_index(self.input@, self.start_offset as int)
    }

    /// The model of the last failure.
    pub open spec fn error_view(&self) -> Option<ExpectedView> {
        match self.error {
            Some(e) => Some(e@),
            None => None,
        }
    }

    /// The state at the start of `input`.
    pub fn new(input: &'i str) -> (s: ParseState<'i>)
        requires
            byte_len(input@) < usize::MAX,
        ensures
            s.wf(),
            s.input@ == input@,
            s.start_offset == 0,
            s.error is None,
    {
        proof {
            crate::text::lemma_ends_are_boundaries(input@);
        }
        ParseState { input, start_offset: 0, error: None }
    }

    /// A copy.
    pub fn duplicate(&self) -> (s: ParseState<'i>)
        ensures
            s.input == self.input,
            s.start_offset == self.start_offset,
            s.error_view() == self.error_view(),
    {
        ParseState {
            input: self.input,
            start_offset: self.start_offset,
            error: match &self.error {
                Some(e) => Some(e.duplicate()),
                None => None,
            },
        }
    }

    /// The cursor at the place.
    fn cursor(&self) -> (p: Position<'i>)
        requires
            self.wf(),
        ensures
            p.wf(),
            p.text() == self.input@,
            p.offset() == self.start_offset,
    {
        match Position::new(self.input, self.start_offset) {
            Some(p) => p,
            None => {
                proof {
                    assert(false);
                }
                Position::from_start(self.input)
            },
        }
    }

    /// The rest of the input, from the place on.
    pub fn residual(&self) -> (s: &'i str)
        requires
            self.wf(),
        ensures
            s@ == self.remaining(),
    {
        crate::text::tail_from(self.input, self.start_offset)
    }

    /// Matches the code point `c`, and hands it back.
    pub fn match_char(self, c: char) -> (r: IResult<'i, char>)
        requires
            self.wf(),
        ensures
            r is Ok <==> self.remaining().len() > 0 && self.remaining()[0] == c,
            r matches Ok(p) ==> p.1 == c && p.0.wf() && p.0.input == self.input && p.0.index()
                == self.index() + 1 && p.0.start_offset > self.start_offset && p.0.error
                == self.error,
            r matches Err(e) ==> e@ == ExpectedView::Character(c),
    {
        let mut at = self.cursor();
        if at.match_char(c) {
            Ok((ParseState { input: self.input, start_offset: at.pos(), error: self.error }, c))
        } else {
            Err(IError::excepted_character(c))
        }
    }

    /// Matches one code point between `lo` and `hi`, both included, and
    /// hands it back.
    pub fn match_char_range(self, lo: char, hi: char) -> (r: IResult<'i, char>)
        requires
            self.wf(),
        ensures
            r is Ok <==> self.remaining().len() > 0 && lo <= self.remaining()[0] <= hi,
            r matches Ok(p) ==> p.1 == self.remaining()[0] && p.0.wf() && p.0.input == self.input
                && p.0.index() == self.index() + 1 && p.0.start_offset > self.start_offset
                && p.0.error == self.error,
            r matches Err(e) ==> e@ == ExpectedView::CharacterRange(lo, hi),
    {
        let mut at = self.cursor();
        let next = at.peek();
        if at.match_char_range(lo, hi) {
            match next {
                Some(c) => Ok(
                    (ParseState { input: self.input, start_offset: at.pos(), error: self.error }, c),
                ),
                None => Err(IError::excepted_character_range(lo, hi)),
            }
        } else {
            Err(IError::excepted_character_range(lo, hi))
        }
    }

    /// Matches the text `s`, and hands it back.
    pub fn match_string(self, s: &'static str) -> (r: IResult<'i, &'static str>)
        requires
            self.wf(),
        ensures
            r is Ok <==> occurs_at(self.input@, self.index(), s@),
            r matches Ok(p) ==> p.1@ == s@ && p.0.wf() && p.0.input == self.input && p.0.index()
                == self.index() + s@.len() && p.0.start_offset == self.start_offset + byte_len(
                s@,
            ) && p.0.error == self.error,
            r matches Err(e) ==> e@ == ExpectedView::Text(s@),
    {
        let mut at = self.cursor();
        if at.match_string(s) {
            Ok((ParseState { input: self.input, start_offset: at.pos(), error: self.error }, s))
        } else {
            Err(IError::excepted_string(s))
        }
    }

    /// Runs `f` until it fails or leaves the place where it was, and at
    /// most `max` times, and hands back what it built. Fails where `f`
    /// matched fewer than `min` times, with what `f` expected at last.
    pub fn match_repeat_m_n<T, F>(self, min: usize, max: usize, f: F) -> (r: IResult<'i, Vec<T>>) where
        F: Fn(ParseState<'i>) -> IResult<'i, T>,

        requires
            self.wf(),
            is_value_parser(f, self.input@),
        ensures
            exists|values: Seq<T>, last: ParseState<'i>| #[trigger]
                gathers(f, self, last, values) && values.len() <= max && gather_ends(
                    f,
                    last,
                    values,
                    min as nat,
                    max as nat,
                    r,
                ),
            min == 0 ==> r is Ok,
            r matches Ok(p) ==> min <= p.1@.len() <= max && p.0.wf() && p.0.input@ == self.input@
                && self.start_offset <= p.0.start_offset,
    {
        let ghost entry = self;
        let ghost mut seen: Seq<T> = Seq::empty();
        let ghost mut from = self;
        let mut values: Vec<T> = Vec::new();
        let mut state = self;
        let mut last: Option<IError> = None;
        while values.len() < max
            invariant_except_break
                from == state,
                seen == values@,
                last is None,
            invariant
                state.wf(),
                state.input@ == entry.input@,
                entry.start_offset <= state.start_offset,
                values.len() <= max,
                seen.len() <= max,
                is_value_parser(f, entry.input@),
                gathers(f, entry, from, seen),
            ensures
                gather_stops(f, from, seen, max as nat, state, values@, last),
            decreases max - values.len(),
        {
            let here = state.start_offset;
            let saved = state.duplicate();
            let ghost round = state;
            let out = f(state);
            let ghost given = out;
            match out {
                Ok((next, value)) => {
                    values.push(value);
                    let stuck = next.start_offset == here;
                    state = next;
                    if stuck {
                        proof {
                            assert(f.ensures((from,), given));
                        }
                        break ;
                    }
                    proof {
                        let more = seen.push(value);
                        assert(more.drop_last() =~= seen);
                        assert(gathers(f, entry, round, more.drop_last()) && f.ensures(
                            (round,),
                            Ok::<Parsed<'i, T>, IError>((next, more.last())),
                        ) && round.start_offset < next.start_offset);
                        seen = more;
                        from = next;
                    }
                },
                Err(e) => {
                    last = Some(e);
                    state = saved;
                    proof {
                        assert(f.ensures((from,), given));
                    }
                    break ;
                },
            }
        }
        let ghost end = state;
        let ghost all = values@;
        let r = if values.len() >= min {
            Ok((state, values))
        } else {
            match last {
                Some(e) => Err(e),
                None => Err(IError::uninitialized("match_repeat_m_n")),
            }
        };
        proof {
            assert(gather_stops(f, from, seen, max as nat, end, all, last) && gather_closes(
                end,
                all,
                last,
                min as nat,
                r,
            ));
            assert(gathers(f, entry, from, seen) && gather_ends(
                f,
                from,
                seen,
                min as nat,
                max as nat,
                r,
            ));
        }
        r
    }

    /// Runs `f` as often as it matches and moves on, and hands back what it
    /// built.
    pub fn match_repeats<T, F>(self, f: F) -> (r: IResult<'i, Vec<T>>) where
        F: Fn(ParseState<'i>) -> IResult<'i, T>,

        requires
            self.wf(),
            is_value_parser(f, self.input@),
        ensures
            r is Ok,
            exists|values: Seq<T>, last: ParseState<'i>| #[trigger]
                gathers(f, self, last, values) && gather_ends(
                    f,
                    last,
                    values,
                    0,
                    usize::MAX as nat,
                    r,
                ),
            r matches Ok(p) ==> p.0.wf() && p.0.input@ == self.input@ && self.start_offset
                <= p.0.start_offset,
    {
        self.match_repeat_m_n(0, usize::MAX, f)
    }

    /// Runs `f`, and hands back what it built, or nothing where it failed.
    pub fn match_optional<T, F>(self, f: F) -> (r: IResult<'i, Option<T>>) where
        F: FnOnce(ParseState<'i>) -> IResult<'i, T>,

        requires
            self.wf(),
            is_value_parser(f, self.input@),
        ensures
            exists|out: IResult<'i, T>| #[trigger]
                f.ensures((self,), out) && match out {
                    Ok(p) => r == Ok::<Parsed<'i, Option<T>>, IError>((p.0, Some(p.1))),
                    Err(_) => r matches Ok(p) && same_place(p.0, self) && p.1 is None,
                },
            r is Ok,
            r matches Ok(p) ==> p.0.wf() && p.0.input@ == self.input@ && self.start_offset
                <= p.0.start_offset,
    {
        let saved = self.duplicate();
        let out = f(self);
        let ghost given = out;
        let r = match out {
            Ok((next, value)) => Ok((next, Some(value))),
            Err(_) => Ok((saved, None)),
        };
        proof {
            assert(f.ensures((self,), given));
        }
        r
    }

    /// Ends a parser: the state, and the value that was built.
    pub fn finish<T>(self, value: T) -> (r: IResult<'i, T>)
        ensures
            r == Ok::<Parsed<'i, T>, IError>((self, value)),
    {
        Ok((self, value))
    }

    /// Keeps `error` as what the alternative that failed last expected.
    pub fn set_error(&mut self, error: IError)
        ensures
            final(self).input == old(self).input,
            final(self).start_offset == old(self).start_offset,
            final(self).error == Some(error),
    {
        self.error = Some(error);
    }

    /// What the alternative that failed last expected.
    pub fn get_error(self) -> (e: IError)
        ensures
            match self.error {
                Some(last) => e == last,
                None => e@ == ExpectedView::Uninitialized("choice"@),
            },
    {
        match self.error {
            Some(e) => e,
            None => IError::uninitialized("choice"),
        }
    }

    /// Starts a choice between parsers at this state.
    pub fn start_choice<T>(self) -> (c: ChoiceHelper<'i, T>)
        ensures
            c.state == self,
            c.result is None,
    {
        ChoiceHelper { state: self, result: None }
    }
}

impl<'a, T> ChoiceHelper<'a, T> {
    /// A choice between parsers at `state`, with nothing found yet.
    pub fn new(state: ParseState<'a>) -> (c: Self)
        ensures
            c.state == state,
            c.result is None,
    {
        ChoiceHelper { state, result: None }
    }

    /// Tries `parse_fn` at the state of the choice, unless an alternative
    /// has matched before. What it gives after a match is kept; what it
    /// expected where it failed becomes the last failure of the state.
    pub fn or_else<F>(self, parse_fn: F) -> (c: Self) where
        F: FnOnce(ParseState<'a>) -> IResult<'a, T>,

        requires
            self.result is None ==> forall|s: ParseState<'a>|
                s.input == self.state.input && s.start_offset == self.state.start_offset
                    ==> #[trigger] parse_fn.requires((s,)),
        ensures
            self.result is Some ==> c == self,
            c.state.input == self.state.input,
            c.state.start_offset == self.state.start_offset,
            self.result is None ==> exists|s: ParseState<'a>, out: IResult<'a, T>|
                s.input == self.state.input && s.start_offset == self.state.start_offset
                    && parse_fn.ensures((s,), out) && match out {
                    Ok(found) => c.result == Some(found) && c.state == self.state,
                    Err(e) => c.result is None && c.state.error == Some(e),
                },
    {
        let ChoiceHelper { state, result } = self;
        match result {
            Some(found) => ChoiceHelper { state, result: Some(found) },
            None => {
                let copy = state.duplicate();
                let out = parse_fn(copy);
                match out {
                    Ok(found) => {
                        proof {
                            assert(parse_fn.ensures((copy,), out));
                        }
                        ChoiceHelper { state, result: Some(found) }
                    },
                    Err(e) => {
                        let mut state = state;
                        state.set_error(e);
                        proof {
                            assert(parse_fn.ensures((copy,), out));
                        }
                        ChoiceHelper { state, result: None }
                    },
                }
            },
        }
    }

    /// Ends the choice: what the first alternative that matched gave, or
    /// what the last alternative expected.
    pub fn end_choice(self) -> (r: IResult<'a, T>)
        ensures
            match self.result {
                Some(found) => r == Ok::<Parsed<'a, T>, IError>(found),
                None => r is Err && match self.state.error {
                    Some(last) => r->Err_0 == last,
                    None => r->Err_0@ == ExpectedView::Uninitialized("choice"@),
                },
            },
    {
        match self.result {
            Some(found) => Ok(found),
            None => Err(self.state.get_error()),
        }
    }
}

} // verus!
