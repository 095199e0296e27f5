//! A stretch of the input text between two positions.

use crate::position::{count_newlines, lemma_line_end_bounds, line_end, Position};
use crate::text::{
    byte_len, char_index, chars_between, lemma_boundary_order, lemma_byte_len_concat,
    lemma_ends_are_boundaries, lemma_offset_to_index, on_boundary, slice_between,
};
use vstd::prelude::*;

verus! {

/// The lines of `s` from index `from` on: the stretches between line feeds,
/// without the line feeds. A text that ends in a line feed has an empty last
/// line.
pub open spec fn lines_from(s: Seq<char>, from: int) -> Seq<Seq<char>>
    decreases s.len() - from,
{
    let e = line_end(s, from);
    if from < 0 || e < from || e >= s.len() {
        seq![s.subrange(from, s.len() as int)]
    } else {
        seq![s.subrange(from, e)] + lines_from(s, e + 1)
    }
}

/// The lines of `s`.
pub open spec fn split_lines(s: Seq<char>) -> Seq<Seq<char>> {
    lines_from(s, 0)
}

/// A text has one line more than it has line feeds.
pub proof fn lemma_line_count(s: Seq<char>, from: int)
    requires
        0 <= from <= s.len(),
    ensures
        lines_from(s, from).len() == 1 + count_newlines(s.skip(from)),
    decreases s.len() - from,
{
    let e = line_end(s, from);
    lemma_line_end_bounds(s, from);
    lemma_no_newline_before_end(s, from, e);
    if e >= s.len() {
        assert(s.subrange(from, e) =~= s.skip(from));
    } else {
        lemma_line_count(s, e + 1);
        assert(s.skip(from) =~= s.subrange(from, e) + seq!['\n'] + s.skip(e + 1));
        lemma_count_concat(s.subrange(from, e) + seq!['\n'], s.skip(e + 1));
        lemma_count_concat(s.subrange(from, e), seq!['\n']);
        lemma_count_one('\n');
    }
}

/// No line feed stands between an index and the end of its line.
pub proof fn lemma_no_newline_before_end(s: Seq<char>, from: int, e: int)
    requires
        0 <= from <= s.len(),
        e == line_end(s, from),
    ensures
        count_newlines(s.subrange(from, e)) == 0,
        e < s.len() ==> s[e] == '\n',
        forall|i: int| from <= i < e ==> s[i] != '\n',
    decreases s.len() - from,
{
    lemma_line_end_bounds(s, from);
    if from < s.len() && s[from] != '\n' {
        lemma_no_newline_before_end(s, from + 1, e);
        lemma_line_end_bounds(s, from + 1);
        assert(s.subrange(from, e) =~= seq![s[from]] + s.subrange(from + 1, e));
        lemma_count_concat(seq![s[from]], s.subrange(from + 1, e));
        lemma_count_one(s[from]);
    } else {
        assert(s.subrange(from, e) =~= Seq::<char>::empty());
    }
}

/// A single code point holds one line feed or none.
pub proof fn lemma_count_one(c: char)
    ensures
        count_newlines(seq![c]) == if c == '\n' {
            1nat
        } else {
            0nat
        },
{
    assert(seq![c].drop_last() =~= Seq::<char>::empty());
    assert(count_newlines(Seq::<char>::empty()) == 0);
    assert(seq![c].last() == c);
}

/// The line feeds of a concatenation are those of its parts.
pub proof fn lemma_count_concat(a: Seq<char>, b: Seq<char>)
    ensures
        count_newlines(a + b) == count_newlines(a) + count_newlines(b),
    decreases b.len(),
{
    if b.len() == 0 {
        assert(a + b =~= a);
    } else {
        assert((a + b).drop_last() =~= a + b.drop_last());
        lemma_count_concat(a, b.drop_last());
    }
}

/// `s` without its carriage returns: the text with line feeds alone at the
/// ends of its lines.
pub open spec fn without_returns(s: Seq<char>) -> Seq<char>
    decreases s.len(),
{
    if s.len() == 0 {
        Seq::<char>::empty()
    } else if s.last() == '\r' {
        without_returns(s.drop_last())
    } else {
        without_returns(s.drop_last()).push(s.last())
    }
}

/// A text has as many line feeds, and so as many lines, with carriage
/// returns before its line feeds as without them.
pub proof fn lemma_returns_keep_lines(s: Seq<char>)
    ensures
        count_newlines(without_returns(s)) == count_newlines(s),
        split_lines(without_returns(s)).len() == split_lines(s).len(),
    decreases s.len(),
{
    if s.len() > 0 {
        lemma_returns_keep_lines(s.drop_last());
        if s.last() != '\r' {
            let t = without_returns(s.drop_last()).push(s.last());
            assert(t.drop_last() =~= without_returns(s.drop_last()));
            assert(t.last() == s.last());
        }
    }
    lemma_line_count(s, 0);
    lemma_line_count(without_returns(s), 0);
    assert(s.skip(0) =~= s);
    assert(without_returns(s).skip(0) =~= without_returns(s));
}

/// A stretch of an input text: the text and two byte offsets on code point
/// boundaries, the first not after the second.
#[derive(Clone, Copy, Debug)]
pub struct TextSpan<'i> {
    input: &'i str,
    start: usize,
    end: usize,
}

impl<'i> TextSpan<'i> {
    /// The code points of the input text.
    pub closed spec fn text(&self) -> Seq<char> {
        self.input@
    }

    /// The byte offset at which the span starts.
    pub closed spec fn start_offset(&self) -> int {
        self.start as int
    }

    /// The byte offset at which the span ends.
    pub closed spec fn end_offset(&self) -> int {
        self.end as int
    }

    /// Both offsets are code point boundaries, in order, and the text is
    /// shorter than the largest `usize`.
    pub open spec fn wf(&self) -> bool {
        &&& on_boundary(self.text(), self.start_offset())
        &&& on_boundary(self.text(), self.end_offset())
        &&& self.start_offset() <= self.end_offset()
        &&& byte_len(self.text()) < usize::MAX
    }

    /// The code points that the span covers.
    pub open spec fn covered(&self) -> Seq<char> {
        chars_between(self.text(), self.start_offset(), self.end_offset())
    }

    /// The span of `input` between two boundaries that the caller knows.
    pub(crate) fn new_checked(input: &'i str, start: usize, end: usize) -> (s: TextSpan<'i>)
        requires
            on_boundary(input@, start as int),
            on_boundary(input@, end as int),
            start <= end,
            byte_len(input@) < usize::MAX,
        ensures
            s.wf(),
            s.text() == input@,
            s.start_offset() == start,
            s.end_offset() == end,
    {
        TextSpan { input, start, end }
    }

    /// The span of `input` between the byte offsets `start` and `end`, if
    /// both are code point boundaries and in order.
    pub fn new(input: &'i str, start: usize, end: usize) -> (r: Option<TextSpan<'i>>)
        ensures
            r is Some <==> on_boundary(input@, start as int) && on_boundary(input@, end as int)
                && start <= end && byte_len(input@) < usize::MAX,
            r matches Some(s) ==> s.wf() && s.text() == input@ && s.start_offset() == start
                && s.end_offset() == end,
    {
        let a = Position::new(input, start);
        let b = Position::new(input, end);
        if a.is_some() && b.is_some() && start <= end {
            Some(TextSpan { input, start, end })
        } else {
            None
        }
    }

    /// The input text.
    pub fn get_input(&self) -> (s: &'i str)
        ensures
            s@ == self.text(),
    {
        self.input
    }

    /// The byte offset at which the span starts.
    pub fn start(&self) -> (n: usize)
        ensures
            n == self.start_offset(),
    {
        self.start
    }

    /// The byte offset at which the span ends.
    pub fn end(&self) -> (n: usize)
        ensures
            n == self.end_offset(),
    {
        self.end
    }

    /// The position at which the span starts.
    pub fn start_pos(&self) -> (p: Position<'i>)
        requires
            self.wf(),
        ensures
            p.wf(),
            p.text() == self.text(),
            p.offset() == self.start_offset(),
    {
        match Position::new(self.input, self.start) {
            Some(p) => p,
            None => {
                proof {
                    assert(false);
                }
                Position::from_start(self.input)
            },
        }
    }

    /// The position at which the span ends.
    pub fn end_pos(&self) -> (p: Position<'i>)
        requires
            self.wf(),
        ensures
            p.wf(),
            p.text() == self.text(),
            p.offset() == self.end_offset(),
    {
        match Position::new(self.input, self.end) {
            Some(p) => p,
            None => {
                proof {
                    assert(false);
                }
                Position::from_start(self.input)
            },
        }
    }

    /// The two positions that bound the span.
    pub fn split(&self) -> (ends: (Position<'i>, Position<'i>))
        requires
            self.wf(),
        ensures
            ends.0.wf(),
            ends.1.wf(),
            ends.0.text() == self.text(),
            ends.1.text() == self.text(),
            ends.0.offset() == self.start_offset(),
            ends.1.offset() == self.end_offset(),
    {
        (self.start_pos(), self.end_pos())
    }

    /// The text that the span covers.
    pub fn as_str(&self) -> (s: &'i str)
        requires
            self.wf(),
        ensures
            s@ == self.covered(),
    {
        slice_between(self.input, self.start, self.end)
    }

    /// The lines of the text that the span covers: the stretches between
    /// its line feeds. The first and the last may be parts of lines of the
    /// input.
    pub fn lines(&self) -> (lines: Vec<&'i str>)
        requires
            self.wf(),
        ensures
            lines.len() == split_lines(self.covered()).len(),
            forall|i: int|
                0 <= i < lines.len() ==> (#[trigger] lines[i])@ == split_lines(self.covered())[i],
    {
        let text = self.as_str();
        let ghost t = text@;
        proof {
            lemma_ends_are_boundaries(t);
            lemma_byte_len_sub(self.text(), self.start_offset(), self.end_offset());
        }
        let mut out: Vec<&'i str> = Vec::new();
        let mut cur = Position::from_start(text);
        let mut piece: usize = 0;
        let ghost mut done: Seq<Seq<char>> = Seq::empty();
        let ghost mut ps: int = 0;
        loop
            invariant_except_break
                line_end(t, cur.index()) == line_end(t, ps),
                done + lines_from(t, ps) =~= split_lines(t),
            invariant
                cur.wf(),
                cur.text() == t,
                t == text@,
                on_boundary(t, piece as int),
                char_index(t, piece as int) == ps,
                piece <= cur.offset(),
                0 <= ps <= cur.index() <= t.len(),
                done.len() == out.len(),
                forall|i: int| 0 <= i < out.len() ==> (#[trigger] out[i])@ == done[i],
            ensures
                done =~= split_lines(t),
                done.len() == out.len(),
                forall|i: int| 0 <= i < out.len() ==> (#[trigger] out[i])@ == done[i],
            decreases t.len() - cur.index(),
        {
            proof {
                lemma_offset_to_index(t, cur.offset());
                lemma_line_end_bounds(t, ps);
            }
            let here = cur.pos();
            match cur.peek() {
                None => {
                    let last = slice_between(text, piece, here);
                    out.push(last);
                    proof {
                        assert(last@ =~= t.subrange(ps, t.len() as int));
                        done = done.push(last@);
                    }
                    break ;
                },
                Some(c) => {
                    let hit = cur.match_char(c);
                    if c == '\n' {
                        let part = slice_between(text, piece, here);
                        out.push(part);
                        proof {
                            done = done.push(part@);
                            ps = cur.index();
                            assert(done + lines_from(t, ps) =~= split_lines(t));
                        }
                        piece = cur.pos();
                    }
                },
            }
        }
        out
    }
}

/// The bytes between two boundaries are fewer than those of the text.
pub proof fn lemma_byte_len_sub(text: Seq<char>, from: int, to: int)
    requires
        on_boundary(text, from),
        on_boundary(text, to),
        from <= to,
    ensures
        byte_len(chars_between(text, from, to)) == to - from,
        byte_len(chars_between(text, from, to)) <= byte_len(text),
{
    lemma_offset_to_index(text, from);
    lemma_offset_to_index(text, to);
    lemma_boundary_order(text, from, to);
    let i = char_index(text, from);
    let j = char_index(text, to);
    assert(text.take(j) =~= text.take(i) + text.subrange(i, j));
    lemma_byte_len_concat(text.take(i), text.subrange(i, j));
}

} // verus!
