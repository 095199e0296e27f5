//! A cursor into the input text.

use crate::span::TextSpan;
use crate::text::{
    byte_len, char_at, char_index, char_width, chars_from, lemma_advance, lemma_boundary_order,
    lemma_byte_len_one, lemma_ends_are_boundaries, lemma_offset_to_index, on_boundary,
    slice_between,
};
use vstd::prelude::*;

verus! {

/// Number of line feeds in `s`.
pub open spec fn count_newlines(s: Seq<char>) -> nat
    decreases s.len(),
{
    if s.len() == 0 {
        0
    } else {
        count_newlines(s.drop_last()) + if s.last() == '\n' {
            1nat
        } else {
            0nat
        }
    }
}

/// Index at which the line that holds index `i` of `s` starts: the index
/// after the last line feed before `i`, or 0.
pub open spec fn line_start(s: Seq<char>, i: int) -> int
    decreases i,
{
    if i <= 0 {
        0
    } else if s[i - 1] == '\n' {
        i
    } else {
        line_start(s, i - 1)
    }
}

/// Index at which the line that holds index `i` of `s` ends: the index of
/// the first line feed at or after `i`, or the length of `s`.
pub open spec fn line_end(s: Seq<char>, i: int) -> int
    decreases s.len() - i,
{
    if i >= s.len() {
        s.len() as int
    } else if i >= 0 && s[i] == '\n' {
        i
    } else {
        line_end(s, i + 1)
    }
}

/// True when `needle` stands in `s` at index `at`.
pub open spec fn occurs_at(s: Seq<char>, at: int, needle: Seq<char>) -> bool {
    0 <= at && at + needle.len() <= s.len() && s.subrange(at, at + needle.len()) == needle
}

/// The line start lies at or before the index.
pub proof fn lemma_line_start_bounds(s: Seq<char>, i: int)
    requires
        0 <= i <= s.len(),
    ensures
        0 <= line_start(s, i) <= i,
    decreases i,
{
    if i > 0 && s[i - 1] != '\n' {
        lemma_line_start_bounds(s, i - 1);
    }
}

/// The line end lies at or after the index, within the text.
pub proof fn lemma_line_end_bounds(s: Seq<char>, i: int)
    requires
        0 <= i <= s.len(),
    ensures
        i <= line_end(s, i) <= s.len(),
    decreases s.len() - i,
{
    if i < s.len() && s[i] != '\n' {
        lemma_line_end_bounds(s, i + 1);
    }
}

/// A place in an input text: the text and a byte offset on a code point
/// boundary.
#[derive(Clone, Copy, Debug)]
pub struct Position<'i> {
    input: &'i str,
    pos: usize,
}

impl<'i> Position<'i> {
    /// The code points of the input text.
    pub closed spec fn text(&self) -> Seq<char> {
        self.input@
    }

    /// The byte offset into the input text.
    pub closed spec fn offset(&self) -> int {
        self.pos as int
    }

    /// The offset is a code point boundary of the text, and the text is
    /// shorter than the largest `usize`.
    pub open spec fn wf(&self) -> bool {
        on_boundary(self.text(), self.offset()) && byte_len(self.text()) < usize::MAX
    }

    /// Number of code points before the position.
    pub open spec fn index(&self) -> int {
        char_index(self.text(), self.offset())
    }

    /// The code points from the position on.
    pub open spec fn remaining(&self) -> Seq<char> {
        chars_from(self.text(), self.offset())
    }

    /// The code points before the position.
    pub open spec fn consumed(&self) -> Seq<char> {
        self.text().take(self.index())
    }

    /// The position `k` code points further on.
    pub open spec fn advanced(&self, k: int) -> int {
        self.offset() + byte_len(self.remaining().take(k))
    }

    /// The position at byte offset `pos` of `input`, if that is a code
    /// point boundary.
    pub fn new(input: &'i str, pos: usize) -> (r: Option<Position<'i>>)
        ensures
            r is Some <==> on_boundary(input@, pos as int) && byte_len(input@) < usize::MAX,
            r matches Some(p) ==> p.text() == input@ && p.offset() == pos && p.wf(),
    {
        proof {
            vstd::utf8::encode_utf8_valid_utf8(input@);
        }
        if input.as_bytes().len() < usize::MAX && input.is_char_boundary(pos) {
            Some(Position { input, pos })
        } else {
            None
        }
    }

    /// The position at the start of `input`.
    pub fn from_start(input: &'i str) -> (p: Position<'i>)
        requires
            byte_len(input@) < usize::MAX,
        ensures
            p.text() == input@,
            p.offset() == 0,
            p.wf(),
    {
        proof {
            lemma_ends_are_boundaries(input@);
        }
        Position { input, pos: 0 }
    }

    /// The input text.
    pub fn input(&self) -> (s: &'i str)
        ensures
            s@ == self.text(),
    {
        self.input
    }

    /// The byte offset.
    pub fn pos(&self) -> (n: usize)
        ensures
            n == self.offset(),
    {
        self.pos
    }

    /// True at the start of the input.
    pub fn at_start(&self) -> (b: bool)
        ensures
            b == (self.offset() == 0),
    {
        self.pos == 0
    }

    /// True at the end of the input.
    pub fn at_end(&self) -> (b: bool)
        requires
            self.wf(),
        ensures
            b == (self.offset() == byte_len(self.text())),
            b == (self.remaining().len() == 0),
    {
        proof {
            lemma_offset_to_index(self.text(), self.offset());
            lemma_ends_are_boundaries(self.text());
            lemma_boundary_order(self.text(), self.offset(), byte_len(self.text()) as int);
        }
        self.pos == self.input.as_bytes().len()
    }

    /// The code point at the position, if the input does not end there.
    pub fn peek(&self) -> (c: Option<char>)
        requires
            self.wf(),
        ensures
            c == (if self.remaining().len() > 0 {
                Some(self.remaining()[0])
            } else {
                None
            }),
    {
        char_at(self.input, self.pos)
    }

    /// The span from this position to `other`.
    pub fn span(&self, other: &Position<'i>) -> (s: TextSpan<'i>)
        requires
            self.wf(),
            other.wf(),
            self.text() == other.text(),
            self.offset() <= other.offset(),
        ensures
            s.wf(),
            s.text() == self.text(),
            s.start_offset() == self.offset(),
            s.end_offset() == other.offset(),
    {
        TextSpan::new_checked(self.input, self.pos, other.pos)
    }

    /// Moves one code point forward. The caller has seen that one is left.
    fn step(&mut self, c: char)
        requires
            old(self).wf(),
            old(self).remaining().len() > 0,
            old(self).remaining()[0] == c,
        ensures
            final(self).wf(),
            final(self).text() == old(self).text(),
            final(self).offset() == old(self).advanced(1),
            final(self).index() == old(self).index() + 1,
            final(self).offset() > old(self).offset(),
    {
        proof {
            lemma_advance(self.text(), self.offset(), 1);
            assert(self.remaining().take(1) =~= seq![c]);
            lemma_byte_len_one(c);
            lemma_offset_to_index(self.text(), self.offset());
        }
        let w = char_width(c);
        self.pos = self.pos + w;
    }

    /// Moves `n` code points forward, or to the end of the input where
    /// fewer are left. Returns whether `n` code points were left.
    pub fn skip(&mut self, n: usize) -> (all: bool)
        requires
            old(self).wf(),
        ensures
            final(self).wf(),
            final(self).text() == old(self).text(),
            all == (n <= old(self).remaining().len()),
            final(self).index() == old(self).index() + if all {
                n as int
            } else {
                old(self).remaining().len() as int
            },
            final(self).offset() >= old(self).offset(),
    {
        let mut k: usize = 0;
        proof {
            lemma_offset_to_index(self.text(), self.offset());
        }
        while k < n
            invariant
                self.wf(),
                self.text() == old(self).text(),
                k <= n,
                self.index() == old(self).index() + k,
                0 <= old(self).index() <= old(self).text().len(),
                self.offset() >= old(self).offset(),
            decreases n - k,
        {
            match self.peek() {
                None => {
                    proof {
                        lemma_offset_to_index(self.text(), self.offset());
                    }
                    return false;
                },
                Some(c) => {
                    self.step(c);
                    k = k + 1;
                },
            }
        }
        proof {
            lemma_offset_to_index(self.text(), self.offset());
        }
        true
    }

    /// The byte offset of the boundary `k` code points into the input.
    fn offset_of_index(&self, k: usize) -> (off: usize)
        requires
            self.wf(),
            k <= self.text().len(),
        ensures
            on_boundary(self.text(), off as int),
            char_index(self.text(), off as int) == k,
    {
        proof {
            lemma_ends_are_boundaries(self.text());
        }
        let mut cur = Position { input: self.input, pos: 0 };
        let all = cur.skip(k);
        cur.pos
    }

    /// Number of code points before the position.
    fn index_exec(&self) -> (k: usize)
        requires
            self.wf(),
        ensures
            k == self.index(),
            k <= self.text().len(),
    {
        proof {
            lemma_ends_are_boundaries(self.text());
            lemma_offset_to_index(self.text(), self.offset());
        }
        let mut cur = Position { input: self.input, pos: 0 };
        let mut k: usize = 0;
        while cur.pos < self.pos
            invariant
                cur.wf(),
                self.wf(),
                cur.text() == self.text(),
                cur.index() == k,
                k <= cur.offset(),
                cur.offset() <= self.offset(),
                0 <= self.index() <= self.text().len(),
            decreases self.offset() - cur.offset(),
        {
            proof {
                lemma_boundary_order(self.text(), cur.offset(), self.offset());
                lemma_offset_to_index(self.text(), cur.offset());
            }
            match cur.peek() {
                None => {
                    proof {
                        assert(false);
                    }
                },
                Some(c) => {
                    cur.step(c);
                    k = k + 1;
                    proof {
                        lemma_boundary_order(self.text(), cur.offset(), self.offset());
                    }
                },
            }
        }
        proof {
            lemma_boundary_order(self.text(), cur.offset(), self.offset());
        }
        k
    }

    /// Moves `n` code points back, or to the start of the input where
    /// fewer lie before. Returns whether `n` code points lay before.
    pub fn skip_back(&mut self, n: usize) -> (all: bool)
        requires
            old(self).wf(),
        ensures
            final(self).wf(),
            final(self).text() == old(self).text(),
            all == (n <= old(self).index()),
            final(self).index() == if all {
                old(self).index() - n
            } else {
                0
            },
            final(self).offset() <= old(self).offset(),
    {
        let k = self.index_exec();
        let target: usize = if n <= k {
            k - n
        } else {
            0
        };
        let off = self.offset_of_index(target);
        proof {
            lemma_boundary_order(self.text(), off as int, self.offset());
        }
        self.pos = off;
        n <= k
    }

    /// Moves over `c` if it stands at the position.
    pub fn match_char(&mut self, c: char) -> (hit: bool)
        requires
            old(self).wf(),
        ensures
            final(self).wf(),
            final(self).text() == old(self).text(),
            hit == (old(self).remaining().len() > 0 && old(self).remaining()[0] == c),
            hit ==> final(self).offset() == old(self).advanced(1) && final(self).index() == old(self).index() + 1,
            !hit ==> *final(self) == *old(self),
            final(self).offset() >= old(self).offset(),
    {
        match self.peek() {
            Some(d) => {
                if d == c {
                    self.step(d);
                    true
                } else {
                    false
                }
            },
            None => false,
        }
    }

    /// Moves over one code point between `lo` and `hi`, both included, if
    /// one stands at the position.
    pub fn match_char_range(&mut self, lo: char, hi: char) -> (hit: bool)
        requires
            old(self).wf(),
        ensures
            final(self).wf(),
            final(self).text() == old(self).text(),
            hit == (old(self).remaining().len() > 0 && lo <= old(self).remaining()[0] <= hi),
            hit ==> final(self).offset() == old(self).advanced(1) && final(self).index() == old(self).index() + 1,
            !hit ==> *final(self) == *old(self),
            final(self).offset() >= old(self).offset(),
    {
        match self.peek() {
            Some(d) => {
                if lo <= d && d <= hi {
                    self.step(d);
                    true
                } else {
                    false
                }
            },
            None => false,
        }
    }

    /// Moves over one code point if `f` accepts the one at the position.
    pub fn match_char_by<F: FnOnce(char) -> bool>(&mut self, f: F) -> (hit: bool)
        requires
            old(self).wf(),
            old(self).remaining().len() > 0 ==> f.requires((old(self).remaining()[0],)),
        ensures
            final(self).wf(),
            final(self).text() == old(self).text(),
            hit ==> old(self).remaining().len() > 0 && f.ensures((old(self).remaining()[0],), true),
            !hit && old(self).remaining().len() > 0 ==> f.ensures(
                (old(self).remaining()[0],),
                false,
            ),
            hit ==> final(self).offset() == old(self).advanced(1) && final(self).index() == old(self).index() + 1,
            !hit ==> *final(self) == *old(self),
            final(self).offset() >= old(self).offset(),
    {
        match self.peek() {
            Some(d) => {
                if f(d) {
                    self.step(d);
                    true
                } else {
                    false
                }
            },
            None => false,
        }
    }

    /// Moves over `s` if it stands at the position.
    pub fn match_string(&mut self, s: &str) -> (hit: bool)
        requires
            old(self).wf(),
        ensures
            final(self).wf(),
            final(self).text() == old(self).text(),
            hit == occurs_at(old(self).text(), old(self).index(), s@),
            hit ==> final(self).offset() == old(self).offset() + byte_len(s@) && final(self).index() == old(self).index() + s@.len(),
            !hit ==> *final(self) == *old(self),
            final(self).offset() >= old(self).offset(),
    {
        proof {
            lemma_ends_are_boundaries(s@);
            lemma_offset_to_index(self.text(), self.offset());
        }
        let mut cur = *self;
        let mut at: usize = 0;
        let ghost mut k: int = 0;
        let n = s.as_bytes().len();
        while at < n
            invariant
                cur.wf(),
                self.wf(),
                *self == *old(self),
                cur.text() == self.text(),
                n == byte_len(s@),
                on_boundary(s@, at as int),
                char_index(s@, at as int) == k,
                0 <= k <= s@.len(),
                cur.index() == self.index() + k,
                0 <= self.index() <= self.text().len(),
                cur.index() <= self.text().len(),
                cur.offset() == self.offset() + at,
                self.text().subrange(self.index(), cur.index()) == s@.take(k),
            decreases n - at,
        {
            proof {
                lemma_ends_are_boundaries(s@);
                lemma_boundary_order(s@, at as int, n as int);
                lemma_offset_to_index(s@, at as int);
                lemma_offset_to_index(cur.text(), cur.offset());
            }
            let want = char_at(s, at);
            let have = cur.peek();
            match (want, have) {
                (Some(w), Some(h)) => {
                    if w == h {
                        proof {
                            lemma_advance(s@, at as int, 1);
                            assert(chars_from(s@, at as int).take(1) =~= seq![w]);
                            assert(cur.remaining().take(1) =~= seq![h]);
                            assert(self.text().subrange(self.index(), cur.index() + 1)
                                =~= s@.take(k + 1));
                        }
                        cur.step(h);
                        at = at + char_width(w);
                        proof {
                            k = k + 1;
                            lemma_offset_to_index(cur.text(), cur.offset());
                        }
                    } else {
                        proof {
                            let t = self.text();
                            let i = self.index();
                            if occurs_at(t, i, s@) {
                                assert(t.subrange(i, i + s@.len())[k] == t[i + k]);
                            }
                        }
                        return false;
                    }
                },
                (Some(w), None) => {
                    return false;
                },
                (None, _) => {
                    proof {
                        assert(false);
                    }
                    return false;
                },
            }
        }
        proof {
            lemma_ends_are_boundaries(s@);
            lemma_boundary_order(s@, at as int, n as int);
            assert(s@.take(k) =~= s@);
        }
        self.pos = cur.pos;
        true
    }

    /// Line and column of the position, both counted from 1. The line is
    /// one more than the number of line feeds before the position, the
    /// column one more than the number of code points since the last of
    /// them.
    pub fn line_column(&self) -> (lc: (usize, usize))
        requires
            self.wf(),
        ensures
            lc.0 == 1 + count_newlines(self.consumed()),
            lc.1 == 1 + self.index() - line_start(self.text(), self.index()),
    {
        proof {
            lemma_ends_are_boundaries(self.text());
            lemma_offset_to_index(self.text(), self.offset());
            assert(self.text().take(0) =~= Seq::<char>::empty());
        }
        let mut cur = Position { input: self.input, pos: 0 };
        let mut line: usize = 1;
        let mut col: usize = 1;
        while cur.pos < self.pos
            invariant
                cur.wf(),
                self.wf(),
                cur.text() == self.text(),
                cur.offset() <= self.offset(),
                0 <= cur.index() <= self.index() <= self.text().len(),
                line == 1 + count_newlines(self.text().take(cur.index())),
                col == 1 + cur.index() - line_start(self.text(), cur.index()),
                line <= 1 + cur.index(),
                col <= 1 + cur.index(),
                cur.index() <= cur.offset(),
            decreases self.offset() - cur.offset(),
        {
            proof {
                lemma_boundary_order(self.text(), cur.offset(), self.offset());
                lemma_offset_to_index(self.text(), cur.offset());
            }
            match cur.peek() {
                None => {
                    proof {
                        assert(false);
                    }
                },
                Some(c) => {
                    let ghost i = cur.index();
                    proof {
                        let t = self.text();
                        assert(t.take(i + 1).drop_last() =~= t.take(i));
                        assert(t.take(i + 1).last() == c);
                        lemma_line_start_bounds(t, i);
                    }
                    cur.step(c);
                    if c == '\n' {
                        line = line + 1;
                        col = 1;
                    } else {
                        col = col + 1;
                    }
                    proof {
                        lemma_boundary_order(self.text(), cur.offset(), self.offset());
                    }
                },
            }
        }
        proof {
            lemma_boundary_order(self.text(), cur.offset(), self.offset());
        }
        (line, col)
    }

    /// Byte offsets of the start and the end of the line that holds the
    /// position. The line feed that ends the line is not part of it.
    pub fn line_bounds(&self) -> (b: (usize, usize))
        requires
            self.wf(),
        ensures
            on_boundary(self.text(), b.0 as int),
            on_boundary(self.text(), b.1 as int),
            b.0 <= self.offset() <= b.1,
            char_index(self.text(), b.0 as int) == line_start(self.text(), self.index()),
            char_index(self.text(), b.1 as int) == line_end(self.text(), self.index()),
    {
        proof {
            lemma_ends_are_boundaries(self.text());
            lemma_offset_to_index(self.text(), self.offset());
        }
        let mut cur = Position { input: self.input, pos: 0 };
        let mut start: usize = 0;
        while cur.pos < self.pos
            invariant
                cur.wf(),
                self.wf(),
                cur.text() == self.text(),
                cur.offset() <= self.offset(),
                0 <= cur.index() <= self.index() <= self.text().len(),
                on_boundary(self.text(), start as int),
                start <= cur.offset(),
                char_index(self.text(), start as int) == line_start(self.text(), cur.index()),
            decreases self.offset() - cur.offset(),
        {
            proof {
                lemma_boundary_order(self.text(), cur.offset(), self.offset());
                lemma_offset_to_index(self.text(), cur.offset());
            }
            match cur.peek() {
                None => {
                    proof {
                        assert(false);
                    }
                },
                Some(c) => {
                    cur.step(c);
                    if c == '\n' {
                        start = cur.pos;
                    }
                    proof {
                        lemma_boundary_order(self.text(), cur.offset(), self.offset());
                    }
                },
            }
        }
        proof {
            lemma_boundary_order(self.text(), cur.offset(), self.offset());
        }
        let ghost here = self.index();
        loop
            invariant
                cur.wf(),
                self.wf(),
                cur.text() == self.text(),
                self.offset() <= cur.offset(),
                0 <= here <= cur.index() <= self.text().len(),
                here == self.index(),
                line_end(self.text(), cur.index()) == line_end(self.text(), here),
                on_boundary(self.text(), start as int),
                start <= self.offset(),
                char_index(self.text(), start as int) == line_start(self.text(), here),
            ensures
                cur.wf(),
                cur.text() == self.text(),
                self.offset() <= cur.offset(),
                cur.index() == line_end(self.text(), here),
            decreases self.text().len() - cur.index(),
        {
            proof {
                lemma_offset_to_index(self.text(), cur.offset());
            }
            match cur.peek() {
                None => {
                    break ;
                },
                Some(c) => {
                    if c == '\n' {
                        break ;
                    }
                    cur.step(c);
                },
            }
        }
        (start, cur.pos)
    }

    /// The line that holds the position, without the line feed that ends
    /// it.
    pub fn line_of(&self) -> (line: &'i str)
        requires
            self.wf(),
        ensures
            line@ == self.text().subrange(
                line_start(self.text(), self.index()),
                line_end(self.text(), self.index()),
            ),
    {
        let (a, b) = self.line_bounds();
        slice_between(self.input, a, b)
    }
}

} // verus!
