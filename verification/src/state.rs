//! The state that is threaded through the combinators of a parse.
//!
//! Every combinator takes the state by value and hands it back, as `Ok` when
//! it matched and as `Err` when it did not. What comes back continues what
//! went in: the text and the modes are the same, the queue has grown at its
//! end only, and the furthest failure has not moved back. After a match the
//! markers that were added are a forest.

use crate::errors::{offset_line, ErrorKind, InputLocation, YggdrasilError};
use crate::pair::TokenTree;
use crate::position::{occurs_at, Position};
use crate::text::{byte_len, char_index, lemma_offset_to_index, on_boundary};
use crate::token::{
    forest, frozen_queue, is_pair, lemma_forest_concat, lemma_forest_frame, lemma_forest_wrap,
    offsets_in_text, offsets_sorted, TokenQueue,
};
use std::rc::Rc;
use vstd::prelude::*;

verus! {

/// Atomicity of the rule that is being matched.
#[derive(Clone, Copy, Debug, PartialEq, Eq, Structural)]
pub enum Atomicity {
    /// Ignored rules may be matched between the terms of a sequence.
    NonAtomic,
    /// Nothing is matched between the terms of a sequence.
    Atomic,
    /// As `Atomic`, and rules inside record no markers of their own.
    CompoundAtomic,
}

/// The state of a parse over an input text, with rules of type `R`.
#[derive(Debug)]
pub struct State<'i, R> {
    position: Position<'i>,
    queue: Vec<TokenQueue<R>>,
    atomicity: Atomicity,
    lookahead: usize,
    negated: bool,
    attempt_pos: usize,
    pos_attempts: Vec<R>,
    neg_attempts: Vec<R>,
    tag: Option<String>,
}

/// What a combinator returns: the state, as `Ok` after a match and as `Err`
/// after a failure.
pub type Either<S> = Result<S, S>;

/// All that can be told of a state.
pub struct StateView<'i, R> {
    /// The cursor.
    pub position: Position<'i>,
    /// The markers written so far.
    pub tokens: Seq<TokenQueue<R>>,
    /// The atomicity in force.
    pub atomicity: Atomicity,
    /// Number of lookaheads that the state is inside of.
    pub lookahead_depth: nat,
    /// True inside an odd number of negative lookaheads.
    pub negated: bool,
    /// The furthest offset at which a rule failed or to which a match led.
    pub furthest: int,
    /// The rules that failed at the furthest offset outside a negation.
    pub positives: Seq<R>,
    /// The rules that failed at the furthest offset inside a negation.
    pub negatives: Seq<R>,
    /// The tag that the next rule will take.
    pub pending_tag: Option<Seq<char>>,
}

impl<'i, R: Copy> View for State<'i, R> {
    type V = StateView<'i, R>;

    open spec fn view(&self) -> StateView<'i, R> {
        StateView {
            position: self.position(),
            tokens: self.tokens(),
            atomicity: self.atomicity(),
            lookahead_depth: self.lookahead_depth(),
            negated: self.negated(),
            furthest: self.furthest(),
            positives: self.positives(),
            negatives: self.negatives(),
            pending_tag: self.pending_tag(),
        }
    }
}

impl<'i, R: Copy> State<'i, R> {
    /// The cursor.
    pub closed spec fn position(&self) -> Position<'i> {
        self.position
    }

    /// The markers written so far.
    pub closed spec fn tokens(&self) -> Seq<TokenQueue<R>> {
        self.queue@
    }

    /// The atomicity in force.
    pub closed spec fn atomicity(&self) -> Atomicity {
        self.atomicity
    }

    /// Number of lookaheads that the state is inside of.
    pub closed spec fn lookahead_depth(&self) -> nat {
        self.lookahead as nat
    }

    /// True inside an odd number of negative lookaheads.
    pub closed spec fn negated(&self) -> bool {
        self.negated
    }

    /// The furthest offset at which a rule failed or to which a match led.
    pub closed spec fn furthest(&self) -> int {
        self.attempt_pos as int
    }

    /// The rules that failed at the furthest offset outside a negation.
    pub closed spec fn positives(&self) -> Seq<R> {
        self.pos_attempts@
    }

    /// The rules that failed at the furthest offset inside a negation.
    pub closed spec fn negatives(&self) -> Seq<R> {
        self.neg_attempts@
    }

    /// The tag that the next rule will take.
    pub closed spec fn pending_tag(&self) -> Option<Seq<char>> {
        match self.tag {
            Some(t) => Some(t@),
            None => None,
        }
    }

    /// The code points of the input text.
    pub open spec fn text(&self) -> Seq<char> {
        self.position().text()
    }

    /// The byte offset of the cursor.
    pub open spec fn offset(&self) -> int {
        self.position().offset()
    }

    /// The cursor and the furthest failure stand on boundaries of the text,
    /// and the offsets of the markers are boundaries that never decrease
    /// and that the cursor has reached.
    pub open spec fn wf(&self) -> bool {
        &&& self.position().wf()
        &&& on_boundary(self.text(), self.furthest())
        &&& offsets_sorted(self.tokens())
        &&& offsets_in_text(self.tokens(), self.text(), self.offset())
    }

    /// A state at the start of `input`.
    pub fn new(input: &'i str) -> (s: Self)
        requires
            byte_len(input@) < usize::MAX,
        ensures
            is_fresh(s, input@),
    {
        State {
            position: Position::from_start(input),
            queue: Vec::new(),
            atomicity: Atomicity::NonAtomic,
            lookahead: 0,
            negated: false,
            attempt_pos: 0,
            pos_attempts: Vec::new(),
            neg_attempts: Vec::new(),
            tag: None,
        }
    }

    /// The cursor.
    pub fn get_position(&self) -> (p: Position<'i>)
        ensures
            p == self.position(),
    {
        self.position
    }

    /// The markers written so far.
    pub fn get_tokens(&self) -> (q: &Vec<TokenQueue<R>>)
        ensures
            q@ == self.tokens(),
    {
        &self.queue
    }

    /// The atomicity in force.
    pub fn get_atomicity(&self) -> (a: Atomicity)
        ensures
            a == self.atomicity(),
    {
        self.atomicity
    }

    /// True inside a lookahead.
    pub fn in_lookahead(&self) -> (b: bool)
        ensures
            b == (self.lookahead_depth() > 0),
    {
        self.lookahead > 0
    }

    /// The furthest offset at which a rule failed or to which a match led.
    pub fn furthest_offset(&self) -> (n: usize)
        ensures
            n == self.furthest(),
    {
        self.attempt_pos
    }

    /// The rules that failed at the furthest offset outside a negation.
    pub fn positive_attempts(&self) -> (v: &Vec<R>)
        ensures
            v@ == self.positives(),
    {
        &self.pos_attempts
    }

    /// The rules that failed at the furthest offset inside a negation.
    pub fn negative_attempts(&self) -> (v: &Vec<R>)
        ensures
            v@ == self.negatives(),
    {
        &self.neg_attempts
    }

    /// Notes that `rule` failed where it started, at `at`. A failure beyond
    /// the furthest one replaces what was recorded, one at the same offset
    /// is added to it, an earlier one is dropped.
    fn record_failure(&mut self, rule: R, at: usize)
        requires
            old(self).wf(),
            on_boundary(old(self).text(), at as int),
        ensures
            final(self).wf(),
            final(self).position() == old(self).position(),
            final(self).tokens() == old(self).tokens(),
            same_modes(*old(self), *final(self)),
            final(self).pending_tag() == old(self).pending_tag(),
            after_failure(*old(self), *final(self), rule, at as int),
    {
        if at > self.attempt_pos {
            self.pos_attempts.clear();
            self.neg_attempts.clear();
            self.attempt_pos = at;
        }
        if at == self.attempt_pos {
            if self.negated {
                self.neg_attempts.push(rule);
            } else {
                self.pos_attempts.push(rule);
            }
        }
    }

    /// Notes that a match led to the cursor. Beyond the furthest failure,
    /// this forgets what was recorded.
    fn record_advance(&mut self)
        requires
            old(self).wf(),
        ensures
            final(self).wf(),
            final(self).position() == old(self).position(),
            final(self).tokens() == old(self).tokens(),
            same_modes(*old(self), *final(self)),
            final(self).pending_tag() == old(self).pending_tag(),
            after_advance(*old(self), *final(self)),
    {
        let here = self.position.pos();
        if here > self.attempt_pos {
            self.pos_attempts.clear();
            self.neg_attempts.clear();
            self.attempt_pos = here;
        }
    }

    /// Puts the cursor and the queue back to where they were at `mark`
    /// markers, with the cursor at `position`.
    fn restore(&mut self, position: Position<'i>, mark: usize, Ghost(entry): Ghost<Self>)
        requires
            continues(entry, *old(self)),
            entry.wf(),
            position == entry.position(),
            mark == entry.tokens().len(),
        ensures
            continues(entry, *final(self)),
            final(self).position() == entry.position(),
            final(self).tokens() == entry.tokens(),
            final(self).furthest() == old(self).furthest(),
            final(self).positives() == old(self).positives(),
            final(self).negatives() == old(self).negatives(),
            final(self).pending_tag() == old(self).pending_tag(),
            final(self)@ == (StateView {
                position: entry.position(),
                tokens: entry.tokens(),
                ..old(self)@
            }),
    {
        self.position = position;
        self.queue.truncate(mark);
        proof {
            assert(self.tokens() =~= entry.tokens());
            assert(self.tokens().take(mark as int) =~= entry.tokens());
        }
    }

    /// Matches `rule`: opens a start marker, runs `f`, and closes the pair
    /// with an end marker that carries the pending tag. When `f` fails, the
    /// markers that it wrote are dropped and the failure is recorded at the
    /// offset at which the rule started. Inside a compound atomic rule no
    /// markers are written.
    pub fn rule<F>(self, rule: R, f: F) -> (r: Either<Self>) where
        F: FnOnce(Self) -> Either<Self>,

        requires
            self.wf(),
            is_parser(f, self.text()),
        ensures
            follows(self, r),
            exists|inner: Self, out: Either<Self>| #[trigger]
                f.ensures((inner,), out) && inner.wf() && opened(self, rule, inner) && rule_closed(
                    self,
                    rule,
                    out,
                    r,
                ),
            r matches Ok(s) ==> s.furthest() >= self.furthest() && (self.atomicity()
                != Atomicity::CompoundAtomic ==> {
                let n = self.tokens().len() as int;
                let m = s.tokens().len() as int;
                &&& n + 2 <= m
                &&& is_pair(s.tokens(), n, m - 1)
                &&& s.tokens()[n].rule_of() == rule
                &&& s.tokens()[n].offset() == self.offset()
                &&& s.tokens()[m - 1].offset() == s.offset()
                &&& tag_view(s.tokens()[m - 1]) == self.pending_tag()
            }),
            r matches Err(s) ==> {
                &&& s.tokens() == self.tokens()
                &&& s.furthest() >= self.offset()
                &&& s.furthest() == self.offset() ==> if self.negated() {
                    s.negatives().len() > 0 && s.negatives().last() == rule
                } else {
                    s.positives().len() > 0 && s.positives().last() == rule
                }
            },
    {
        let mut s = self;
        let start = s.position.pos();
        let index = s.queue.len();
        let records = s.atomicity != Atomicity::CompoundAtomic;
        let tag = s.tag.take();
        if records {
            s.queue.push(TokenQueue::Start { rule, input_offset: start, end_token_index: 0 });
        }
        let ghost inner = s;
        assert(inner.wf());
        let out = f(s);
        let ghost res = out;
        assert(f.ensures((inner,), res));
        match out {
            Ok(mut t) => {
                assert(follows(inner, Ok::<Self, Self>(t)));
                if records {
                    let close = t.queue.len();
                    let end = t.position.pos();
                    let ghost before = t.queue@;
                    t.queue.set(
                        index,
                        TokenQueue::Start { rule, input_offset: start, end_token_index: close },
                    );
                    t.queue.push(TokenQueue::End { rule, input_offset: end, tag });
                    proof {
                        let q = t.queue@;
                        assert(before.take(index + 1) =~= inner.tokens());
                        assert(before[index as int] == inner.tokens()[index as int]);
                        lemma_forest_frame(before, q, index + 1, close as int);
                        lemma_forest_wrap(q, index as int, close as int);
                        assert(q.take(index as int) =~= self.tokens()) by {
                            assert forall|i: int| 0 <= i < index implies q[i] == self.tokens()[i] by {
                                assert(before[i] == inner.tokens()[i]);
                            }
                        }
                        assert forall|i: int, j: int| 0 <= i <= j < q.len() implies (#[trigger] q[i]).offset()
                            <= (#[trigger] q[j]).offset() by {
                            if j < close {
                                assert(q[i].offset() == before[i].offset());
                                assert(q[j].offset() == before[j].offset());
                                assert(before[i].offset() <= before[j].offset());
                            } else if i < close {
                                assert(q[i].offset() == before[i].offset());
                                assert(before[i].offset() <= t.offset());
                            }
                        }
                        assert forall|i: int| 0 <= i < q.len() implies on_boundary(
                            t.text(),
                            (#[trigger] q[i]).offset(),
                        ) && q[i].offset() <= t.offset() by {
                            if i < close {
                                assert(on_boundary(t.text(), before[i].offset()));
                            }
                        }
                    }
                } else {
                    proof {
                        assert(t.tokens().take(index as int) =~= self.tokens());
                    }
                }
                let r = Ok(t);
                proof {
                                if records {
                        assert(t.tokens().drop_last() =~= res->Ok_0.tokens().update(
                            index as int,
                            TokenQueue::Start {
                                rule,
                                input_offset: start,
                                end_token_index: res->Ok_0.tokens().len() as usize,
                            },
                        ));
                    }
                    assert(f.ensures((inner,), res) && inner.wf() && opened(self, rule, inner)
                        && rule_closed(self, rule, res, r));
                }
                r
            },
            Err(mut t) => {
                assert(follows(inner, Err::<Self, Self>(t)));
                proof {
                    assert(t.tokens().take(index as int) =~= self.tokens()) by {
                        assert forall|i: int| 0 <= i < index implies t.tokens()[i]
                            == self.tokens()[i] by {
                            assert(t.tokens().take(inner.tokens().len() as int)[i]
                                == inner.tokens()[i]);
                        }
                    }
                }
                t.queue.truncate(index);
                proof {
                    assert(t.tokens() =~= self.tokens());
                }
                t.record_failure(rule, start);
                let r = Err(t);
                proof {
                    assert(t.tokens().take(index as int) =~= self.tokens());
                                assert(f.ensures((inner,), res) && inner.wf() && opened(self, rule, inner)
                        && rule_closed(self, rule, res, r));
                }
                r
            },
        }
    }

    /// Runs `f`. When it fails, the cursor and the queue are put back to
    /// where they were.
    pub fn sequence<F>(self, f: F) -> (r: Either<Self>) where F: FnOnce(Self) -> Either<Self>
        requires
            self.wf(),
            is_parser(f, self.text()),
        ensures
            follows(self, r),
            exists|out: Either<Self>| #[trigger] f.ensures((self,), out) && sequenced(self, out, r),
            r matches Err(s) ==> s.position() == self.position() && s.tokens() == self.tokens(),
    {
        let position = self.position;
        let mark = self.queue.len();
        let ghost entry = self;
        let out = f(self);
        let ghost res = out;
        assert(f.ensures((entry,), res));
        let r = match out {
            Ok(t) => Ok(t),
            Err(mut t) => {
                t.restore(position, mark, Ghost(entry));
                Err(t)
            },
        };
        proof {
            assert(f.ensures((entry,), res) && sequenced(entry, res, r));
        }
        r
    }

    /// Runs `f`. When it fails, the cursor and the queue are put back to
    /// where they were, and the state is handed back as a match.
    pub fn optional<F>(self, f: F) -> (r: Either<Self>) where F: FnOnce(Self) -> Either<Self>
        requires
            self.wf(),
            is_parser(f, self.text()),
        ensures
            follows(self, r),
            r is Ok,
            exists|out: Either<Self>| #[trigger] f.ensures((self,), out) && opted(self, out, r),
    {
        let position = self.position;
        let mark = self.queue.len();
        let ghost entry = self;
        let out = f(self);
        let ghost res = out;
        assert(f.ensures((entry,), res));
        let r = match out {
            Ok(t) => Ok(t),
            Err(mut t) => {
                t.restore(position, mark, Ghost(entry));
                proof {
                    assert(forest(t.tokens(), mark as int, mark as int));
                }
                Ok(t)
            },
        };
        proof {
            assert(f.ensures((entry,), res) && opted(entry, res, r));
        }
        r
    }

    /// Runs `f` as often as it matches and moves the cursor. A failure of
    /// `f` that left the cursor where it was ends the repetition; one that
    /// moved it makes the repetition fail, with the cursor and the queue put
    /// back to where they were at the start.
    pub fn repeat<F>(self, f: F) -> (r: Either<Self>) where F: Fn(Self) -> Either<Self>
        requires
            self.wf(),
            is_parser(f, self.text()),
        ensures
            follows(self, r),
            repeated(f, self, r),
            r matches Err(s) ==> s.position() == self.position() && s.tokens() == self.tokens(),
    {
        let first = self.position;
        let first_mark = self.queue.len();
        let ghost entry = self;
        let ghost mut n: nat = 0;
        let mut s = self;
        proof {
            assert(forest(s.tokens(), first_mark as int, first_mark as int));
            assert(s.tokens().take(first_mark as int) =~= s.tokens());
        }
        loop
            invariant
                entry == self,
                entry.wf(),
                first == entry.position(),
                first_mark == entry.tokens().len(),
                is_parser(f, entry.text()),
                follows(entry, Ok::<Self, Self>(s)),
                runs(f, entry, s, n),
            decreases byte_len(entry.text()) - s.offset(),
        {
            let position = s.position;
            let mark = s.queue.len();
            let ghost round = s;
            let out = f(s);
            let ghost given = out;
            match out {
                Ok(t) => {
                    proof {
                        lemma_follows_chain(entry, round, Ok(t));
                    }
                    if t.position.pos() == position.pos() {
                        let r = Ok(t);
                        proof {
                            assert(runs(f, entry, round, n) && f.ensures((round,), given)
                                && repeat_ends(entry, round, given, r));
                            assert(repeated(f, entry, r));
                        }
                        return r;
                    }
                    proof {
                        assert(runs(f, entry, round, n) && f.ensures((round,), Ok::<Self, Self>(t))
                            && round.offset() < t.offset());
                        n = n + 1;
                    }
                    s = t;
                },
                Err(mut t) => {
                    proof {
                        lemma_follows_chain(entry, round, Err(t));
                    }
                    let stuck = t.position.pos() == position.pos();
                    if stuck {
                        t.restore(position, mark, Ghost(round));
                        proof {
                            lemma_follows_chain(entry, round, Err(t));
                        }
                    } else {
                        t.restore(first, first_mark, Ghost(entry));
                    }
                    let r = if stuck {
                        Ok(t)
                    } else {
                        Err(t)
                    };
                    proof {
                        assert(runs(f, entry, round, n) && f.ensures((round,), given)
                            && repeat_ends(entry, round, given, r));
                        assert(repeated(f, entry, r));
                    }
                    return r;
                },
            }
        }
    }

    /// Runs `f` until it fails or leaves the cursor where it was, and at
    /// most `max` times. What a failing run of `f` consumed or wrote is
    /// dropped. Matches when `f` matched at least `min` times; otherwise the
    /// cursor and the queue are put back to where they were at the start.
    pub fn repeat_min_max<F>(self, min: usize, max: usize, f: F) -> (r: Either<Self>) where
        F: Fn(Self) -> Either<Self>,

        requires
            self.wf(),
            is_parser(f, self.text()),
        ensures
            follows(self, r),
            exists|n: nat, last: Self| #[trigger]
                runs(f, self, last, n) && n <= max && counted_ends(
                    f,
                    self,
                    last,
                    n,
                    min as nat,
                    max as nat,
                    r,
                ),
            min == 0 ==> r is Ok,
            r matches Err(s) ==> s.position() == self.position() && s.tokens() == self.tokens(),
    {
        let first = self.position;
        let first_mark = self.queue.len();
        let ghost entry = self;
        let ghost mut n: nat = 0;
        let ghost mut last = self;
        let mut s = self;
        let mut count: usize = 0;
        proof {
            assert(forest(s.tokens(), first_mark as int, first_mark as int));
            assert(s.tokens().take(first_mark as int) =~= s.tokens());
        }
        while count < max
            invariant_except_break
                n == count,
                last == s,
            invariant
                entry == self,
                entry.wf(),
                first == entry.position(),
                first_mark == entry.tokens().len(),
                is_parser(f, entry.text()),
                follows(entry, Ok::<Self, Self>(s)),
                count <= max,
                n <= max,
                runs(f, entry, last, n),
            ensures
                stops(f, last, n, max as nat, s, count as nat),
            decreases max - count,
        {
            let position = s.position;
            let mark = s.queue.len();
            let ghost round = s;
            let out = f(s);
            let ghost given = out;
            match out {
                Ok(t) => {
                    proof {
                        lemma_follows_chain(entry, round, Ok(t));
                    }
                    count = count + 1;
                    let stuck = t.position.pos() == position.pos();
                    s = t;
                    if stuck {
                        proof {
                            assert(f.ensures((last,), given));
                        }
                        break ;
                    }
                    proof {
                        assert(runs(f, entry, round, n) && f.ensures((round,), Ok::<Self, Self>(t))
                            && round.offset() < t.offset());
                        n = n + 1;
                        last = t;
                    }
                },
                Err(mut t) => {
                    proof {
                        lemma_follows_chain(entry, round, Err(t));
                    }
                    t.restore(position, mark, Ghost(round));
                    proof {
                        assert(forest(t.tokens(), mark as int, mark as int));
                        lemma_follows_chain(entry, round, Ok(t));
                        assert(f.ensures((last,), given));
                    }
                    s = t;
                    break ;
                },
            }
        }
        let ghost end = s;
        let r = if count >= min {
            Ok(s)
        } else {
            s.restore(first, first_mark, Ghost(entry));
            Err(s)
        };
        proof {
            assert(closes(entry, end, count as nat, min as nat, r));
            assert(runs(f, entry, last, n) && counted_ends(
                f,
                entry,
                last,
                n,
                min as nat,
                max as nat,
                r,
            ));
        }
        r
    }

    /// Runs `f` with the atomicity `mode` in force, and puts the former one
    /// back afterwards.
    pub fn atomic<F>(self, mode: Atomicity, f: F) -> (r: Either<Self>) where
        F: FnOnce(Self) -> Either<Self>,

        requires
            self.wf(),
            is_parser(f, self.text()),
        ensures
            follows(self, r),
            exists|inner: Self, out: Either<Self>| #[trigger]
                f.ensures((inner,), out) && inner.wf() && inner@ == (StateView {
                    atomicity: mode,
                    ..self@
                }) && in_mode(self.atomicity(), out, r),
    {
        let initial = self.atomicity;
        let mut s = self;
        s.atomicity = mode;
        let ghost inner = s;
        let out = f(s);
        let ghost res = out;
        let r = match out {
            Ok(mut t) => {
                assert(follows(inner, Ok::<Self, Self>(t)));
                t.atomicity = initial;
                Ok(t)
            },
            Err(mut t) => {
                assert(follows(inner, Err::<Self, Self>(t)));
                t.atomicity = initial;
                Err(t)
            },
        };
        proof {
            assert(f.ensures((inner,), res) && inner.wf() && inner@ == (StateView {
                atomicity: mode,
                ..self@
            }) && in_mode(self.atomicity(), res, r));
        }
        r
    }

    /// Runs `f` without keeping what it consumed or wrote: afterwards the
    /// cursor and the queue are where they were. A positive lookahead
    /// matches when `f` matched, a negative one when `f` failed.
    pub fn lookahead<F>(self, is_positive: bool, f: F) -> (r: Either<Self>) where
        F: FnOnce(Self) -> Either<Self>,

        requires
            self.wf(),
            is_parser(f, self.text()),
        ensures
            follows(self, r),
            exists|inner: Self, out: Either<Self>| #[trigger]
                f.ensures((inner,), out) && inner.wf() && inner@ == looking(self, is_positive)
                    && looked(self, is_positive, out, r),
            r matches Ok(s) ==> s.position() == self.position() && s.tokens() == self.tokens(),
            r matches Err(s) ==> s.position() == self.position() && s.tokens() == self.tokens(),
    {
        let position = self.position;
        let mark = self.queue.len();
        let depth = self.lookahead;
        let negated = self.negated;
        let ghost entry = self;
        let mut s = self;
        if depth < usize::MAX {
            s.lookahead = depth + 1;
        }
        s.negated = if is_positive {
            negated
        } else {
            !negated
        };
        let ghost inner = s;
        proof {
            assert(forest(entry.tokens(), mark as int, mark as int));
        }
        let out = f(s);
        let ghost res = out;
        let r = match out {
            Ok(mut t) => {
                assert(follows(inner, Ok::<Self, Self>(t)));
                t.lookahead = depth;
                t.negated = negated;
                t.restore(position, mark, Ghost(entry));
                if is_positive {
                    Ok(t)
                } else {
                    Err(t)
                }
            },
            Err(mut t) => {
                assert(follows(inner, Err::<Self, Self>(t)));
                t.lookahead = depth;
                t.negated = negated;
                t.restore(position, mark, Ghost(entry));
                if is_positive {
                    Err(t)
                } else {
                    Ok(t)
                }
            },
        };
        proof {
            assert(f.ensures((inner,), res) && inner.wf() && inner@ == looking(self, is_positive)
                && looked(self, is_positive, res, r));
        }
        r
    }

    /// Runs `f` with `name` as the pending tag: the next rule that `f`
    /// opens carries it on its end marker. No tag is pending afterwards.
    pub fn tag<F>(self, name: &str, f: F) -> (r: Either<Self>) where
        F: FnOnce(Self) -> Either<Self>,

        requires
            self.wf(),
            is_parser(f, self.text()),
        ensures
            follows(self, r),
            exists|inner: Self, out: Either<Self>| #[trigger]
                f.ensures((inner,), out) && inner.wf() && inner@ == (StateView {
                    pending_tag: Some(name@),
                    ..self@
                }) && untagged(out, r),
    {
        let mut s = self;
        s.tag = Some(name.to_owned());
        let ghost inner = s;
        let out = f(s);
        let ghost res = out;
        let r = match out {
            Ok(mut t) => {
                assert(follows(inner, Ok::<Self, Self>(t)));
                t.tag = None;
                Ok(t)
            },
            Err(mut t) => {
                assert(follows(inner, Err::<Self, Self>(t)));
                t.tag = None;
                Err(t)
            },
        };
        proof {
            assert(f.ensures((inner,), res) && inner.wf() && inner@ == (StateView {
                pending_tag: Some(name@),
                ..self@
            }) && untagged(res, r));
        }
        r
    }

    /// Tries `first`, and `second` where `first` failed. Each starts where
    /// the choice started. When both fail, the cursor and the queue are put
    /// back to where they were.
    pub fn choice<F, G>(self, first: F, second: G) -> (r: Either<Self>) where
        F: FnOnce(Self) -> Either<Self>,
        G: FnOnce(Self) -> Either<Self>,

        requires
            self.wf(),
            is_parser(first, self.text()),
            is_parser(second, self.text()),
        ensures
            follows(self, r),
            exists|a: Either<Self>| #[trigger]
                first.ensures((self,), a) && match a {
                    Ok(_) => r == a,
                    Err(t) => exists|again: Self, b: Either<Self>| #[trigger]
                        second.ensures((again,), b) && again.wf() && again@ == put_back(self, t)
                            && sequenced(self, b, r),
                },
            r matches Err(s) ==> s.position() == self.position() && s.tokens() == self.tokens(),
    {
        let position = self.position;
        let mark = self.queue.len();
        let ghost entry = self;
        let out = first(self);
        let ghost res = out;
        assert(first.ensures((entry,), res));
        match out {
            Ok(t) => Ok(t),
            Err(mut t) => {
                t.restore(position, mark, Ghost(entry));
                let ghost again = t;
                let out2 = second(t);
                let ghost res2 = out2;
                let r = match out2 {
                    Ok(u) => {
                        proof {
                            lemma_follows_chain(entry, again, Ok(u));
                        }
                        Ok(u)
                    },
                    Err(mut u) => {
                        proof {
                            lemma_follows_chain(entry, again, Err(u));
                        }
                        u.restore(position, mark, Ghost(entry));
                        Err(u)
                    },
                };
                proof {
                    assert(second.ensures((again,), res2) && again.wf() && again@ == put_back(
                        entry,
                        res->Err_0,
                    ) && sequenced(entry, res2, r));
                }
                r
            },
        }
    }

    /// Matches the text `s` at the cursor.
    pub fn match_string(self, s: &str) -> (r: Either<Self>)
        requires
            self.wf(),
        ensures
            follows(self, r),
            r is Ok <==> occurs_at(self.text(), self.position().index(), s@),
            r matches Ok(t) ==> t.offset() == self.offset() + byte_len(s@) && t.position().index()
                == self.position().index() + s@.len() && moved_on(self, t),
            r matches Err(t) ==> t == self,
    {
        let mut st = self;
        if st.position.match_string(s) {
            st.record_advance();
            proof {
                lemma_unchanged_queue(self, st);
            }
            Ok(st)
        } else {
            proof {
                lemma_unchanged_queue(self, st);
            }
            Err(st)
        }
    }

    /// Matches the code point `c` at the cursor.
    pub fn match_char(self, c: char) -> (r: Either<Self>)
        requires
            self.wf(),
        ensures
            follows(self, r),
            r is Ok <==> self.position().remaining().len() > 0 && self.position().remaining()[0]
                == c,
            r matches Ok(t) ==> t.offset() == self.position().advanced(1) && t.position().index()
                == self.position().index() + 1 && moved_on(self, t),
            r matches Err(t) ==> t == self,
    {
        let mut st = self;
        if st.position.match_char(c) {
            st.record_advance();
            proof {
                lemma_unchanged_queue(self, st);
            }
            Ok(st)
        } else {
            proof {
                lemma_unchanged_queue(self, st);
            }
            Err(st)
        }
    }

    /// Matches one code point between `lo` and `hi`, both included.
    pub fn match_char_range(self, lo: char, hi: char) -> (r: Either<Self>)
        requires
            self.wf(),
        ensures
            follows(self, r),
            r is Ok <==> self.position().remaining().len() > 0 && lo
                <= self.position().remaining()[0] <= hi,
            r matches Ok(t) ==> t.offset() == self.position().advanced(1) && t.position().index()
                == self.position().index() + 1 && moved_on(self, t),
            r matches Err(t) ==> t == self,
    {
        let mut st = self;
        if st.position.match_char_range(lo, hi) {
            st.record_advance();
            proof {
                lemma_unchanged_queue(self, st);
            }
            Ok(st)
        } else {
            proof {
                lemma_unchanged_queue(self, st);
            }
            Err(st)
        }
    }

    /// Matches one code point that `f` accepts.
    pub fn match_char_by<F>(self, f: F) -> (r: Either<Self>) where F: FnOnce(char) -> bool
        requires
            self.wf(),
            forall|c: char| f.requires((c,)),
        ensures
            follows(self, r),
            r is Ok ==> self.position().remaining().len() > 0 && f.ensures(
                (self.position().remaining()[0],),
                true,
            ),
            r is Err && self.position().remaining().len() > 0 ==> f.ensures(
                (self.position().remaining()[0],),
                false,
            ),
            r matches Ok(t) ==> t.offset() == self.position().advanced(1) && t.position().index()
                == self.position().index() + 1 && moved_on(self, t),
            r matches Err(t) ==> t == self,
    {
        let mut st = self;
        if st.position.match_char_by(f) {
            st.record_advance();
            proof {
                lemma_unchanged_queue(self, st);
            }
            Ok(st)
        } else {
            proof {
                lemma_unchanged_queue(self, st);
            }
            Err(st)
        }
    }

    /// Moves over `n` code points, if so many are left.
    pub fn skip(self, n: usize) -> (r: Either<Self>)
        requires
            self.wf(),
        ensures
            follows(self, r),
            r is Ok <==> n <= self.position().remaining().len(),
            r matches Ok(t) ==> t.position().index() == self.position().index() + n && moved_on(self, t),
            r matches Err(t) ==> t == self,
    {
        let mut st = self;
        let mut cursor = st.position;
        if cursor.skip(n) {
            st.position = cursor;
            st.record_advance();
            proof {
                lemma_unchanged_queue(self, st);
            }
            Ok(st)
        } else {
            proof {
                lemma_unchanged_queue(self, st);
            }
            Err(st)
        }
    }

    /// Matches at the start of the input.
    pub fn start_of_input(self) -> (r: Either<Self>)
        requires
            self.wf(),
        ensures
            follows(self, r),
            r is Ok <==> self.offset() == 0,
            r matches Ok(t) ==> t == self,
            r matches Err(t) ==> t == self,
    {
        proof {
            lemma_unchanged_queue(self, self);
        }
        if self.position.at_start() {
            Ok(self)
        } else {
            Err(self)
        }
    }

    /// Matches at the end of the input.
    pub fn end_of_input(self) -> (r: Either<Self>)
        requires
            self.wf(),
        ensures
            follows(self, r),
            r is Ok <==> self.position().remaining().len() == 0,
            r matches Ok(t) ==> t == self,
            r matches Err(t) ==> t == self,
    {
        proof {
            lemma_unchanged_queue(self, self);
        }
        if self.position.at_end() {
            Ok(self)
        } else {
            Err(self)
        }
    }
}

impl<'i, R: Copy> State<'i, R> {
    /// The tree of a parse that matched: the queue, frozen.
    pub fn into_tree(self) -> (tree: TokenTree<'i, R>)
        requires
            self.wf(),
            forest(self.tokens(), 0, self.tokens().len() as int),
        ensures
            tree.wf(),
            tree.text() == self.text(),
            tree.markers() == self.tokens(),
            tree.start_index() == 0,
            tree.end_index() == self.tokens().len(),
            frozen_queue(tree.markers(), tree.text()),
    {
        let end = self.queue.len();
        let input = self.position.input();
        proof {
            lemma_offset_to_index(self.text(), self.offset());
        }
        TokenTree::new(Rc::new(self.queue), input, 0, end)
    }

    /// The error of a parse that failed: the rules that were tried at the
    /// furthest offset, at that offset.
    pub fn into_error(self) -> (e: YggdrasilError<R>)
        requires
            self.wf(),
        ensures
            e.variant matches ErrorKind::ParsingError { positives, negatives } && positives@
                == self.positives() && negatives@ == self.negatives(),
            e.location == InputLocation::Pos(self.furthest() as usize),
            e.path_view() is None,
            e.continued_line_view() is None,
            e.line_view() == offset_line(self.text(), char_index(self.text(), self.furthest())),
    {
        let input = self.position.input();
        let at = self.attempt_pos;
        let variant = ErrorKind::ParsingError {
            positives: self.pos_attempts,
            negatives: self.neg_attempts,
        };
        match Position::new(input, at) {
            Some(p) => YggdrasilError::new_from_offset(variant, p),
            None => {
                proof {
                    assert(false);
                }
                YggdrasilError::new_from_offset(variant, Position::from_start(input))
            },
        }
    }
}

impl<'i, R: Copy> State<'i, R> {
    /// Moves the cursor over `matched` bytes, where that many bytes were
    /// matched and lead to a code point boundary of the text.
    pub fn accept(self, matched: Option<usize>) -> (r: Either<Self>)
        requires
            self.wf(),
        ensures
            follows(self, r),
            r is Ok <==> matched is Some && on_boundary(self.text(), self.offset() + matched->0),
            r matches Ok(t) ==> t.offset() == self.offset() + matched->0 && moved_on(self, t),
            r matches Err(t) ==> t == self,
    {
        proof {
            lemma_unchanged_queue(self, self);
        }
        let input = self.position.input();
        let here = self.position.pos();
        match matched {
            Some(n) => {
                if n > usize::MAX - here {
                    return Err(self);
                }
                match Position::new(input, here + n) {
                    Some(p) => {
                        let mut st = self;
                        st.position = p;
                        st.record_advance();
                        proof {
                            lemma_unchanged_queue(self, st);
                        }
                        Ok(st)
                    },
                    None => Err(self),
                }
            },
            None => Err(self),
        }
    }

    /// Matches the regular expression `regex` at the cursor.
    pub fn match_regex(self, regex: &crate::ir::regex::YggdrasilRegex) -> (r: Either<Self>)
        requires
            self.wf(),
        ensures
            follows(self, r),
            ({
                let matched = crate::ir::regex::leftmost_match_end(
                    crate::ir::regex::anchored(regex@.raw),
                    self.position().remaining(),
                );
                &&& r is Ok <==> matched is Some && on_boundary(
                    self.text(),
                    self.offset() + matched->0,
                )
                &&& r matches Ok(t) ==> t.offset() == self.offset() + matched->0 && moved_on(self, t)
            }),
            r matches Err(t) ==> t == self,
    {
        let rest = crate::text::tail_from(self.position.input(), self.position.pos());
        let matched = regex.match_end(rest);
        self.accept(matched)
    }
}

/// True when `s` is a state at the start of `text` before anything was
/// matched: outside every rule and lookahead, with no marker, no failure and
/// no tag.
pub open spec fn is_fresh<'i, R: Copy>(s: State<'i, R>, text: Seq<char>) -> bool {
    &&& s.wf()
    &&& s.text() == text
    &&& s.offset() == 0
    &&& s.tokens().len() == 0
    &&& s.atomicity() == Atomicity::NonAtomic
    &&& s.lookahead_depth() == 0
    &&& !s.negated()
    &&& s.furthest() == 0
    &&& s.positives().len() == 0
    &&& s.negatives().len() == 0
    &&& s.pending_tag() is None
}

/// True when `r` is what a parse makes of `out`, the state that the parser
/// returned: the tree of its markers after a match, and after a failure the
/// error with the rules that failed at the furthest offset.
pub open spec fn concludes<'i, R: Copy>(
    out: Either<State<'i, R>>,
    r: Result<TokenTree<'i, R>, YggdrasilError<R>>,
) -> bool {
    match (out, r) {
        (Ok(s), Ok(tree)) => tree.markers() == s.tokens(),
        (Err(s), Err(e)) => {
            &&& e.variant matches ErrorKind::ParsingError { positives, negatives } && positives@
                == s.positives() && negatives@ == s.negatives()
            &&& e.location == InputLocation::Pos(s.furthest() as usize)
        },
        _ => false,
    }
}

/// Parses `input` with `f`, from a fresh state at its start. A match gives
/// the tree of all markers that `f` wrote; a failure gives the parsing error
/// at the furthest offset.
pub fn state<'i, R: Copy, F>(input: &'i str, f: F) -> (r: Result<
    TokenTree<'i, R>,
    YggdrasilError<R>,
>) where F: FnOnce(State<'i, R>) -> Either<State<'i, R>>
    requires
        byte_len(input@) < usize::MAX,
        is_parser(f, input@),
    ensures
        exists|first: State<'i, R>, out: Either<State<'i, R>>|
            is_fresh(first, input@) && #[trigger] f.ensures((first,), out) && concludes(out, r),
        match r {
            Ok(tree) => {
                &&& tree.wf()
                &&& tree.text() == input@
                &&& tree.start_index() == 0
                &&& tree.end_index() == tree.markers().len()
                &&& frozen_queue(tree.markers(), input@)
            },
            Err(e) => {
                &&& e.variant is ParsingError
                &&& e.location matches InputLocation::Pos(at) && on_boundary(input@, at as int)
                    && e.line_view() == offset_line(input@, char_index(input@, at as int))
                &&& e.path_view() is None
                &&& e.continued_line_view() is None
            },
        },
{
    let start = State::new(input);
    let out = f(start);
    let r = match out {
        Ok(s) => {
            assert(follows(start, Ok::<State<'i, R>, State<'i, R>>(s)));
            Ok(s.into_tree())
        },
        Err(s) => {
            assert(follows(start, Err::<State<'i, R>, State<'i, R>>(s)));
            Err(s.into_error())
        },
    };
    proof {
        assert(is_fresh(start, input@) && f.ensures((start,), out) && concludes(out, r));
    }
    r
}

/// What can be told of the state `t` once its cursor and its queue are put
/// back to where they were in `entry`.
pub open spec fn put_back<'i, R: Copy>(entry: State<'i, R>, t: State<'i, R>) -> StateView<'i, R> {
    StateView { position: entry.position(), tokens: entry.tokens(), ..t@ }
}

/// True when `r` is what a parser returned as `out` for the state `entry`,
/// with the cursor and the queue put back after a failure.
pub open spec fn sequenced<'i, R: Copy>(
    entry: State<'i, R>,
    out: Either<State<'i, R>>,
    r: Either<State<'i, R>>,
) -> bool {
    match out {
        Ok(_) => r == out,
        Err(t) => r matches Err(s) && s@ == put_back(entry, t),
    }
}

/// True when `r` is what a parser returned as `out` for the state `entry`,
/// with a failure turned into a match that has the cursor and the queue put
/// back.
pub open spec fn opted<'i, R: Copy>(
    entry: State<'i, R>,
    out: Either<State<'i, R>>,
    r: Either<State<'i, R>>,
) -> bool {
    match out {
        Ok(_) => r == out,
        Err(t) => r matches Ok(s) && s@ == put_back(entry, t),
    }
}

/// True when `inner` is the state in which a rule that is tried in `entry`
/// runs its parser: with a start marker for the rule at the end of the
/// queue, unless the rule stands inside a compound atomic one, and with no
/// tag pending.
pub open spec fn opened<'i, R: Copy>(entry: State<'i, R>, rule: R, inner: State<'i, R>) -> bool {
    &&& inner@ == (StateView { tokens: inner.tokens(), pending_tag: None, ..entry@ })
    &&& inner.tokens() == if entry.atomicity() != Atomicity::CompoundAtomic {
        entry.tokens().push(
            TokenQueue::Start {
                rule,
                input_offset: entry.offset() as usize,
                end_token_index: 0,
            },
        )
    } else {
        entry.tokens()
    }
}

/// True when `r` is what a rule that was tried in `entry` makes of what its
/// parser returned as `out`. After a match the start marker names the end
/// marker, which is added with the offset of the cursor and the tag that
/// was pending in `entry`; inside a compound atomic rule the queue stays as
/// the parser left it. After a failure the queue is that of `entry`, and the
/// failure of the rule is recorded at the offset of `entry`.
pub open spec fn rule_closed<'i, R: Copy>(
    entry: State<'i, R>,
    rule: R,
    out: Either<State<'i, R>>,
    r: Either<State<'i, R>>,
) -> bool {
    match (out, r) {
        (Ok(t), Ok(s)) => {
            &&& s@ == (StateView { tokens: s.tokens(), ..t@ })
            &&& if entry.atomicity() != Atomicity::CompoundAtomic {
                &&& s.tokens().len() == t.tokens().len() + 1
                &&& s.tokens().drop_last() == t.tokens().update(
                    entry.tokens().len() as int,
                    TokenQueue::Start {
                        rule,
                        input_offset: entry.offset() as usize,
                        end_token_index: t.tokens().len() as usize,
                    },
                )
                &&& s.tokens().last() is End
                &&& s.tokens().last().rule_of() == rule
                &&& s.tokens().last().offset() == t.offset()
                &&& tag_view(s.tokens().last()) == entry.pending_tag()
            } else {
                s.tokens() == t.tokens()
            }
        },
        (Err(t), Err(s)) => {
            &&& s@ == (StateView {
                tokens: entry.tokens(),
                furthest: s.furthest(),
                positives: s.positives(),
                negatives: s.negatives(),
                ..t@
            })
            &&& after_failure(t, s, rule, entry.offset())
        },
        _ => false,
    }
}

/// True when `r` is what a parser returned as `out`, with the atomicity
/// `mode` in force again.
pub open spec fn in_mode<'i, R: Copy>(
    mode: Atomicity,
    out: Either<State<'i, R>>,
    r: Either<State<'i, R>>,
) -> bool {
    match (out, r) {
        (Ok(t), Ok(s)) => s@ == (StateView { atomicity: mode, ..t@ }),
        (Err(t), Err(s)) => s@ == (StateView { atomicity: mode, ..t@ }),
        _ => false,
    }
}

/// True when `r` is what a parser returned as `out`, with no tag pending.
pub open spec fn untagged<'i, R: Copy>(out: Either<State<'i, R>>, r: Either<State<'i, R>>) -> bool {
    match (out, r) {
        (Ok(t), Ok(s)) => s@ == (StateView { pending_tag: None, ..t@ }),
        (Err(t), Err(s)) => s@ == (StateView { pending_tag: None, ..t@ }),
        _ => false,
    }
}

/// What can be told of the state in which a lookahead from `entry` runs its
/// parser: one lookahead deeper, as far as that can be counted, and with
/// the negation turned round where the lookahead is a negative one.
pub open spec fn looking<'i, R: Copy>(entry: State<'i, R>, is_positive: bool) -> StateView<'i, R> {
    StateView {
        lookahead_depth: if entry.lookahead_depth() < usize::MAX {
            entry.lookahead_depth() + 1
        } else {
            entry.lookahead_depth()
        },
        negated: if is_positive {
            entry.negated()
        } else {
            !entry.negated()
        },
        ..entry@
    }
}

/// True when `r` is what a lookahead from `entry` makes of what its parser
/// returned as `out`: a match where the parser matched and the lookahead is
/// a positive one, or failed and it is a negative one, and a failure
/// otherwise; either way with the cursor, the queue, the depth and the
/// negation of `entry`.
pub open spec fn looked<'i, R: Copy>(
    entry: State<'i, R>,
    is_positive: bool,
    out: Either<State<'i, R>>,
    r: Either<State<'i, R>>,
) -> bool {
    let t = match out {
        Ok(t) => t,
        Err(t) => t,
    };
    let s = match r {
        Ok(s) => s,
        Err(s) => s,
    };
    &&& r is Ok <==> ((out is Ok) == is_positive)
    &&& s@ == (StateView {
        position: entry.position(),
        tokens: entry.tokens(),
        lookahead_depth: entry.lookahead_depth(),
        negated: entry.negated(),
        ..t@
    })
}

/// True when `f` matched `n` times in a row from `from`, each time moving
/// the cursor, and so led to `to`.
pub open spec fn runs<'i, R: Copy, F: Fn(State<'i, R>) -> Either<State<'i, R>>>(
    f: F,
    from: State<'i, R>,
    to: State<'i, R>,
    n: nat,
) -> bool
    decreases n,
{
    if n == 0 {
        to == from
    } else {
        exists|mid: State<'i, R>|
            runs(f, from, mid, (n - 1) as nat) && #[trigger] f.ensures(
                (mid,),
                Ok::<State<'i, R>, State<'i, R>>(to),
            ) && mid.offset() < to.offset()
    }
}

/// What a repetition that started in `entry` returns when `f` returned
/// `out` for the state `last` and did not both match and move the cursor. A
/// match that left the cursor where it was is the result. A failure that
/// left it there ends the repetition with the cursor and the queue of
/// `last`; any other failure makes the repetition fail, with the cursor and
/// the queue of `entry`.
pub open spec fn repeat_ends<'i, R: Copy>(
    entry: State<'i, R>,
    last: State<'i, R>,
    out: Either<State<'i, R>>,
    r: Either<State<'i, R>>,
) -> bool {
    match out {
        Ok(t) => t.offset() == last.offset() && r == out,
        Err(t) => if t.offset() == last.offset() {
            r matches Ok(s) && s@ == put_back(last, t)
        } else {
            r matches Err(s) && s@ == put_back(entry, t)
        },
    }
}

/// True when `r` is what a repetition of `f` returns for the state `entry`:
/// `f` matched some number of times in a row, each time moving the cursor,
/// and what it returned then ends the repetition.
pub open spec fn repeated<'i, R: Copy, F: Fn(State<'i, R>) -> Either<State<'i, R>>>(
    f: F,
    entry: State<'i, R>,
    r: Either<State<'i, R>>,
) -> bool {
    exists|n: nat, last: State<'i, R>, out: Either<State<'i, R>>|
        #![trigger runs(f, entry, last, n), f.ensures((last,), out)]
        runs(f, entry, last, n) && f.ensures((last,), out) && repeat_ends(entry, last, out, r)
}

/// Index of the code point at which a scan of `text` from the index `at`
/// stops, where `step` gives the number of code points of what stands at an
/// index and is to be passed over, and nothing positive where nothing
/// stands there.
pub open spec fn scan_end(step: spec_fn(Seq<char>, int) -> int, text: Seq<char>, at: int) -> int
    decreases text.len() - at,
{
    let n = step(text, at);
    if 0 <= at && n > 0 && at + n <= text.len() {
        scan_end(step, text, at + n)
    } else {
        at
    }
}

/// True when `f` matches just what `step` measures: it matches where `step`
/// gives a positive number, and then moves the cursor over that many code
/// points, and it fails elsewhere and then leaves the cursor where it was.
pub open spec fn steps_by<'i, R: Copy, F: Fn(State<'i, R>) -> Either<State<'i, R>>>(
    f: F,
    text: Seq<char>,
    step: spec_fn(Seq<char>, int) -> int,
) -> bool {
    forall|s: State<'i, R>, out: Either<State<'i, R>>|
        s.wf() && s.text() == text && #[trigger] f.ensures((s,), out) ==> match out {
            Ok(t) => step(text, s.position().index()) > 0 && t.position().index()
                == s.position().index() + step(text, s.position().index()),
            Err(t) => step(text, s.position().index()) <= 0 && t.position() == s.position(),
        }
}

/// Matches in a row of a parser that matches what `step` measures do not
/// change where the scan stops.
pub proof fn lemma_runs_scan<'i, R: Copy, F: Fn(State<'i, R>) -> Either<State<'i, R>>>(
    f: F,
    step: spec_fn(Seq<char>, int) -> int,
    from: State<'i, R>,
    last: State<'i, R>,
    n: nat,
)
    requires
        from.wf(),
        is_parser(f, from.text()),
        steps_by(f, from.text(), step),
        runs(f, from, last, n),
    ensures
        last.wf(),
        last.text() == from.text(),
        scan_end(step, from.text(), from.position().index()) == scan_end(
            step,
            from.text(),
            last.position().index(),
        ),
    decreases n,
{
    if n > 0 {
        let mid = choose|mid: State<'i, R>|
            runs(f, from, mid, (n - 1) as nat) && #[trigger] f.ensures(
                (mid,),
                Ok::<State<'i, R>, State<'i, R>>(last),
            ) && mid.offset() < last.offset();
        lemma_runs_scan(f, step, from, mid, (n - 1) as nat);
        assert(follows(mid, Ok::<State<'i, R>, State<'i, R>>(last)));
        lemma_offset_to_index(mid.text(), mid.offset());
        lemma_offset_to_index(last.text(), last.offset());
    }
}

/// A repetition of a parser that matches what `step` measures matches, and
/// leads to where the scan stops.
pub proof fn lemma_repeat_scans<'i, R: Copy, F: Fn(State<'i, R>) -> Either<State<'i, R>>>(
    f: F,
    step: spec_fn(Seq<char>, int) -> int,
    entry: State<'i, R>,
    r: Either<State<'i, R>>,
)
    requires
        entry.wf(),
        is_parser(f, entry.text()),
        steps_by(f, entry.text(), step),
        repeated(f, entry, r),
    ensures
        r matches Ok(s) && s.position().index() == scan_end(
            step,
            entry.text(),
            entry.position().index(),
        ),
{
    let (n, last, out) = choose|n: nat, last: State<'i, R>, out: Either<State<'i, R>>|
        #![trigger runs(f, entry, last, n), f.ensures((last,), out)]
        runs(f, entry, last, n) && f.ensures((last,), out) && repeat_ends(entry, last, out, r);
    lemma_runs_scan(f, step, entry, last, n);
    assert(follows(last, out));
}

/// True when `r` is the state `end` as a match where `count` is at least
/// `min`, and else a failure with the cursor and the queue put back to where
/// they were in `entry`.
pub open spec fn closes<'i, R: Copy>(
    entry: State<'i, R>,
    end: State<'i, R>,
    count: nat,
    min: nat,
    r: Either<State<'i, R>>,
) -> bool {
    if count >= min {
        r == Ok::<State<'i, R>, State<'i, R>>(end)
    } else {
        r matches Err(s) && s@ == put_back(entry, end)
    }
}

/// True when a bounded repetition that has come to `last` after `n` matches
/// stops with `count` matches in the state `end`: at once where `n` is
/// `max`, and else with what `f` returns for `last`, which is a match that
/// left the cursor where it was, and counts, or a failure, whose effects are
/// dropped.
pub open spec fn stops<'i, R: Copy, F: Fn(State<'i, R>) -> Either<State<'i, R>>>(
    f: F,
    last: State<'i, R>,
    n: nat,
    max: nat,
    end: State<'i, R>,
    count: nat,
) -> bool {
    if n == max {
        count == n && end == last
    } else {
        exists|out: Either<State<'i, R>>| #[trigger]
            f.ensures((last,), out) && match out {
                Ok(t) => t.offset() == last.offset() && count == n + 1 && end == t,
                Err(t) => count == n && end@ == put_back(last, t),
            }
    }
}

/// What a bounded repetition that started in `entry` returns when it has
/// come to `last` after `n` matches: it stops as `stops` says, and matches
/// where `f` matched at least `min` times.
pub open spec fn counted_ends<'i, R: Copy, F: Fn(State<'i, R>) -> Either<State<'i, R>>>(
    f: F,
    entry: State<'i, R>,
    last: State<'i, R>,
    n: nat,
    min: nat,
    max: nat,
    r: Either<State<'i, R>>,
) -> bool {
    exists|end: State<'i, R>, count: nat| #[trigger]
        stops(f, last, n, max, end, count) && closes(entry, end, count, min, r)
}

/// The end marker's tag as code points.
pub open spec fn tag_view<R>(t: TokenQueue<R>) -> Option<Seq<char>> {
    match t {
        TokenQueue::End { tag: Some(name), .. } => Some(name@),
        _ => None,
    }
}

/// True when two states are in the same atomicity and lookahead.
pub open spec fn same_modes<'i, R: Copy>(a: State<'i, R>, b: State<'i, R>) -> bool {
    &&& a.atomicity() == b.atomicity()
    &&& a.lookahead_depth() == b.lookahead_depth()
    &&& a.negated() == b.negated()
}

/// What holds of the furthest failure after `rule` failed at `at`.
pub open spec fn after_failure<'i, R: Copy>(
    before: State<'i, R>,
    after: State<'i, R>,
    rule: R,
    at: int,
) -> bool {
    if at > before.furthest() {
        &&& after.furthest() == at
        &&& after.positives() == if before.negated() {
            Seq::<R>::empty()
        } else {
            seq![rule]
        }
        &&& after.negatives() == if before.negated() {
            seq![rule]
        } else {
            Seq::<R>::empty()
        }
    } else if at == before.furthest() {
        &&& after.furthest() == at
        &&& after.positives() == if before.negated() {
            before.positives()
        } else {
            before.positives().push(rule)
        }
        &&& after.negatives() == if before.negated() {
            before.negatives().push(rule)
        } else {
            before.negatives()
        }
    } else {
        &&& after.furthest() == before.furthest()
        &&& after.positives() == before.positives()
        &&& after.negatives() == before.negatives()
    }
}

/// True when `after` is `before` after a match that only moved the cursor:
/// the queue, the modes and the pending tag are the same, and the furthest
/// failure is as `after_advance` says.
pub open spec fn moved_on<'i, R: Copy>(before: State<'i, R>, after: State<'i, R>) -> bool {
    &&& after@ == (StateView {
        position: after.position(),
        furthest: after.furthest(),
        positives: after.positives(),
        negatives: after.negatives(),
        ..before@
    })
    &&& after_advance(before, after)
}

/// What holds of the furthest failure after a match led to the cursor of
/// `after`.
pub open spec fn after_advance<'i, R: Copy>(before: State<'i, R>, after: State<'i, R>) -> bool {
    if after.offset() > before.furthest() {
        &&& after.furthest() == after.offset()
        &&& after.positives().len() == 0
        &&& after.negatives().len() == 0
    } else {
        &&& after.furthest() == before.furthest()
        &&& after.positives() == before.positives()
        &&& after.negatives() == before.negatives()
    }
}

/// True when `after` continues `before`: it is well formed, over the same
/// text and in the same modes, its queue starts with that of `before`, and
/// its furthest failure is not before that of `before`.
pub open spec fn continues<'i, R: Copy>(before: State<'i, R>, after: State<'i, R>) -> bool {
    &&& after.wf()
    &&& after.text() == before.text()
    &&& same_modes(before, after)
    &&& before.tokens().len() <= after.tokens().len()
    &&& after.tokens().take(before.tokens().len() as int) == before.tokens()
    &&& before.furthest() <= after.furthest()
}

/// True when `r` is what a combinator may return for the state `before`.
/// Either way the state continues `before`. After a match the cursor has not
/// moved back and the markers that were added are a forest.
pub open spec fn follows<'i, R: Copy>(before: State<'i, R>, r: Either<State<'i, R>>) -> bool {
    match r {
        Ok(s) => {
            &&& continues(before, s)
            &&& before.offset() <= s.offset()
            &&& forest(s.tokens(), before.tokens().len() as int, s.tokens().len() as int)
        },
        Err(s) => continues(before, s),
    }
}

/// True when `f` may be called on every well-formed state over `text`, and
/// what it returns follows the state that it was given.
pub open spec fn is_parser<'i, R: Copy, F: FnOnce(State<'i, R>) -> Either<State<'i, R>>>(
    f: F,
    text: Seq<char>,
) -> bool {
    &&& forall|s: State<'i, R>| s.wf() && s.text() == text ==> #[trigger] f.requires((s,))
    &&& forall|s: State<'i, R>, out: Either<State<'i, R>>|
        s.wf() && s.text() == text && #[trigger] f.ensures((s,), out) ==> follows(s, out)
}

/// A state whose cursor moved on and whose queue and modes stayed continues
/// the one before.
proof fn lemma_unchanged_queue<'i, R: Copy>(before: State<'i, R>, after: State<'i, R>)
    requires
        before.wf(),
        after.position().wf(),
        after.text() == before.text(),
        after.tokens() == before.tokens(),
        same_modes(before, after),
        before.offset() <= after.offset(),
        before.furthest() <= after.furthest(),
        on_boundary(after.text(), after.furthest()),
    ensures
        follows(before, Ok::<State<'i, R>, State<'i, R>>(after)),
        follows(before, Err::<State<'i, R>, State<'i, R>>(after)),
{
    let q = before.tokens();
    assert(q.take(q.len() as int) =~= q);
    assert(forest(q, q.len() as int, q.len() as int));
}

/// What follows a match follows the state before the match.
pub proof fn lemma_follows_chain<'i, R: Copy>(
    a: State<'i, R>,
    b: State<'i, R>,
    r: Either<State<'i, R>>,
)
    requires
        follows(a, Ok::<State<'i, R>, State<'i, R>>(b)),
        follows(b, r),
    ensures
        follows(a, r),
{
    let n = a.tokens().len() as int;
    let m = b.tokens().len() as int;
    match r {
        Ok(c) => {
            assert(c.tokens().take(n) =~= a.tokens()) by {
                assert forall|i: int| 0 <= i < n implies c.tokens()[i] == a.tokens()[i] by {
                    assert(c.tokens().take(m)[i] == b.tokens()[i]);
                    assert(b.tokens().take(n)[i] == a.tokens()[i]);
                }
            }
            assert forall|i: int| n <= i < m implies b.tokens()[i] == c.tokens()[i] by {
                assert(c.tokens().take(m)[i] == b.tokens()[i]);
            }
            lemma_forest_frame(b.tokens(), c.tokens(), n, m);
            lemma_forest_concat(c.tokens(), n, m, c.tokens().len() as int);
        },
        Err(c) => {
            assert(c.tokens().take(n) =~= a.tokens()) by {
                assert forall|i: int| 0 <= i < n implies c.tokens()[i] == a.tokens()[i] by {
                    assert(c.tokens().take(m)[i] == b.tokens()[i]);
                    assert(b.tokens().take(n)[i] == a.tokens()[i]);
                }
            }
        },
    }
}

/// The furthest failure never moves back: not over a match, and not over a
/// failure.
pub proof fn lemma_furthest_monotone<'i, R: Copy>(before: State<'i, R>, r: Either<State<'i, R>>)
    requires
        follows(before, r),
    ensures
        r matches Ok(s) ==> before.furthest() <= s.furthest() && before.offset() <= s.offset(),
        r matches Err(s) ==> before.furthest() <= s.furthest(),
{
}

/// Runs `f` on the state of a match, and hands a failure on.
pub fn and_then<'i, R: Copy, F>(r: Either<State<'i, R>>, f: F) -> (out: Either<State<'i, R>>) where
    F: FnOnce(State<'i, R>) -> Either<State<'i, R>>,

    requires
        r matches Ok(s) ==> f.requires((s,)),
    ensures
        r matches Ok(s) ==> f.ensures((s,), out),
        r is Err ==> out == r,
{
    match r {
        Ok(s) => f(s),
        Err(s) => Err(s),
    }
}

} // verus!
