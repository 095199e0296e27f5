//! The tree that a finished parse leaves: a view over its frozen queue.

use crate::errors::debug_text;
use crate::span::TextSpan;
use crate::strings::{decimal, push_decimal, views};
use crate::text::{byte_len, chars_between, on_boundary, slice_between};
use crate::token::{
    forest, is_pair, lemma_forest_wrap, offsets_in_text, offsets_sorted, pair_end, TokenQueue,
};
use std::rc::Rc;
use vstd::prelude::*;

verus! {

/// `Rc::clone`: another handle on the value that `v` points to.
#[verifier::external_body]
fn share<T>(v: &Rc<T>) -> (res: Rc<T>)
    ensures
        res == *v,
{
    Rc::clone(v)
}

/// Number of pairs that stand side by side from `lo` up to `hi`.
pub open spec fn count_pairs<R>(q: Seq<TokenQueue<R>>, lo: int, hi: int) -> nat
    decreases hi - lo,
{
    let j = pair_end(q, lo);
    if lo >= hi {
        0
    } else if j < lo || j >= hi {
        0
    } else {
        1 + count_pairs(q, j + 1, hi)
    }
}

/// Queue index of the start marker of the `k`-th of the pairs that stand
/// side by side from `lo` on.
pub open spec fn nth_pair<R>(q: Seq<TokenQueue<R>>, lo: int, k: nat) -> int
    decreases k,
{
    if k == 0 {
        lo
    } else {
        nth_pair(q, pair_end(q, lo) + 1, (k - 1) as nat)
    }
}

/// True when the pair that starts at `i` has nothing inside.
pub open spec fn is_leaf<R>(q: Seq<TokenQueue<R>>, i: int) -> bool {
    q[i] is Start && pair_end(q, i) == i + 1
}

/// The texts of the leaves from `lo` up to `hi`, one after the other, in
/// the order of the queue.
pub open spec fn leaf_text<R>(q: Seq<TokenQueue<R>>, text: Seq<char>, lo: int, hi: int) -> Seq<char>
    decreases hi - lo,
{
    if lo >= hi {
        Seq::<char>::empty()
    } else if is_leaf(q, lo) && lo + 1 < hi {
        chars_between(text, q[lo].offset(), q[lo + 1].offset()) + leaf_text(q, text, lo + 2, hi)
    } else {
        leaf_text(q, text, lo + 1, hi)
    }
}

/// True when the leaves from `lo` up to `hi` follow one another without a
/// gap, the first starting at the byte offset `from` and the last ending at
/// `to`.
pub open spec fn leaves_tile<R>(q: Seq<TokenQueue<R>>, lo: int, hi: int, from: int, to: int) -> bool
    decreases hi - lo,
{
    if lo >= hi {
        from == to
    } else if is_leaf(q, lo) && lo + 1 < hi {
        q[lo].offset() == from && from <= q[lo + 1].offset() && leaves_tile(
            q,
            lo + 2,
            hi,
            q[lo + 1].offset(),
            to,
        )
    } else {
        leaves_tile(q, lo + 1, hi, from, to)
    }
}

/// Where the leaves follow one another without a gap from one offset to
/// another, their texts make up the text between the two offsets.
pub proof fn lemma_leaves_cover<R>(
    q: Seq<TokenQueue<R>>,
    text: Seq<char>,
    lo: int,
    hi: int,
    from: int,
    to: int,
)
    requires
        0 <= lo,
        hi <= q.len(),
        offsets_in_text(q, text, byte_len(text) as int),
        on_boundary(text, from),
        leaves_tile(q, lo, hi, from, to),
    ensures
        from <= to,
        on_boundary(text, to),
        leaf_text(q, text, lo, hi) == chars_between(text, from, to),
    decreases hi - lo,
{
    if lo >= hi {
        crate::text::lemma_offset_to_index(text, from);
        assert(chars_between(text, from, to) =~= Seq::<char>::empty());
    } else if is_leaf(q, lo) && lo + 1 < hi {
        let mid = q[lo + 1].offset();
        lemma_leaves_cover(q, text, lo + 2, hi, mid, to);
        crate::text::lemma_offset_to_index(text, from);
        crate::text::lemma_offset_to_index(text, mid);
        crate::text::lemma_offset_to_index(text, to);
        crate::text::lemma_boundary_order(text, from, mid);
        crate::text::lemma_boundary_order(text, mid, to);
        assert(chars_between(text, from, to) =~= chars_between(text, from, mid) + chars_between(
            text,
            mid,
            to,
        ));
    } else {
        lemma_leaves_cover(q, text, lo + 1, hi, from, to);
    }
}

/// Where the leaves of a finished parse follow one another without a gap
/// from the start of the text to its end, their texts make up the text.
pub proof fn lemma_leaves_make_text<R>(q: Seq<TokenQueue<R>>, text: Seq<char>)
    requires
        crate::token::frozen_queue(q, text),
        leaves_tile(q, 0, q.len() as int, 0, byte_len(text) as int),
    ensures
        leaf_text(q, text, 0, q.len() as int) == text,
{
    crate::text::lemma_ends_are_boundaries(text);
    lemma_leaves_cover(q, text, 0, q.len() as int, 0, byte_len(text) as int);
    assert(chars_between(text, 0, byte_len(text) as int) =~= text);
}

/// A copy of a marker.
pub fn copy_token<R: Copy>(t: &TokenQueue<R>) -> (c: TokenQueue<R>)
    ensures
        c == *t,
{
    match t {
        TokenQueue::Start { rule, input_offset, end_token_index } => TokenQueue::Start {
            rule: *rule,
            input_offset: *input_offset,
            end_token_index: *end_token_index,
        },
        TokenQueue::End { rule, input_offset, tag } => TokenQueue::End {
            rule: *rule,
            input_offset: *input_offset,
            tag: match tag {
                Some(t) => Some(t.clone()),
                None => None,
            },
        },
    }
}

/// A matching pair of markers and what stands between them: a node of the
/// tree.
#[derive(Debug)]
pub struct TokenPair<'i, R> {
    queue: Rc<Vec<TokenQueue<R>>>,
    input: &'i str,
    start: usize,
}

/// A row of pairs that stand side by side: the children of a node, or the
/// whole tree.
#[derive(Debug)]
pub struct TokenTree<'i, R> {
    queue: Rc<Vec<TokenQueue<R>>>,
    input: &'i str,
    start: usize,
    end: usize,
}

impl<'i, R: Copy> TokenPair<'i, R> {
    /// The frozen queue.
    pub closed spec fn markers(&self) -> Seq<TokenQueue<R>> {
        (*self.queue)@
    }

    /// The code points of the input text.
    pub closed spec fn text(&self) -> Seq<char> {
        self.input@
    }

    /// Queue index of the start marker.
    pub closed spec fn start_index(&self) -> int {
        self.start as int
    }

    /// Queue index of the end marker.
    pub open spec fn end_index(&self) -> int {
        pair_end(self.markers(), self.start_index())
    }

    /// The pair is a matching pair of the queue with a forest inside, over
    /// a queue whose offsets are boundaries of the text in rising order.
    pub open spec fn wf(&self) -> bool {
        &&& byte_len(self.text()) < usize::MAX
        &&& offsets_sorted(self.markers())
        &&& offsets_in_text(self.markers(), self.text(), byte_len(self.text()) as int)
        &&& is_pair(self.markers(), self.start_index(), self.end_index())
        &&& forest(self.markers(), self.start_index() + 1, self.end_index())
    }

    /// The code points that the pair covers.
    pub open spec fn covered(&self) -> Seq<char> {
        chars_between(
            self.text(),
            self.markers()[self.start_index()].offset(),
            self.markers()[self.end_index()].offset(),
        )
    }

    /// The pair of `queue` that starts at `start`.
    pub(crate) fn new(queue: Rc<Vec<TokenQueue<R>>>, input: &'i str, start: usize) -> (p: Self)
        requires
            byte_len(input@) < usize::MAX,
            offsets_sorted((*queue)@),
            offsets_in_text((*queue)@, input@, byte_len(input@) as int),
            is_pair((*queue)@, start as int, pair_end((*queue)@, start as int)),
            forest((*queue)@, start + 1, pair_end((*queue)@, start as int)),
        ensures
            p.wf(),
            p.markers() == (*queue)@,
            p.text() == input@,
            p.start_index() == start,
    {
        TokenPair { queue, input, start }
    }

    /// Queue index of the end marker.
    pub fn pair(&self) -> (j: usize)
        requires
            self.wf(),
        ensures
            j == self.end_index(),
    {
        match &self.queue[self.start] {
            TokenQueue::Start { end_token_index, .. } => *end_token_index,
            TokenQueue::End { .. } => self.start,
        }
    }

    /// The byte offset that the marker at `index` carries.
    pub fn pos(&self, index: usize) -> (n: usize)
        requires
            index < self.markers().len(),
        ensures
            n == self.markers()[index as int].offset(),
    {
        self.queue[index].input_offset()
    }

    /// The rule that matched.
    pub fn as_rule(&self) -> (r: R)
        requires
            self.wf(),
        ensures
            r == self.markers()[self.start_index()].rule_of(),
    {
        match &self.queue[self.pair()] {
            TokenQueue::End { rule, .. } => *rule,
            TokenQueue::Start { rule, .. } => *rule,
        }
    }

    /// The text that the pair covers.
    pub fn as_str(&self) -> (s: &'i str)
        requires
            self.wf(),
        ensures
            s@ == self.covered(),
    {
        let start = self.pos(self.start);
        let end = self.pos(self.pair());
        slice_between(self.input, start, end)
    }

    /// The whole input text.
    pub fn get_input(&self) -> (s: &'i str)
        ensures
            s@ == self.text(),
    {
        self.input
    }

    /// The span that the pair covers.
    pub fn as_span(&self) -> (s: TextSpan<'i>)
        requires
            self.wf(),
        ensures
            s.wf(),
            s.text() == self.text(),
            s.start_offset() == self.markers()[self.start_index()].offset(),
            s.end_offset() == self.markers()[self.end_index()].offset(),
    {
        let start = self.pos(self.start);
        let end = self.pos(self.pair());
        TextSpan::new_checked(self.input, start, end)
    }

    /// The tag that the grammar gave to the node, if any.
    pub fn as_node_tag(&self) -> (t: Option<&str>)
        requires
            self.wf(),
        ensures
            match t {
                Some(s) => crate::state::tag_view(self.markers()[self.end_index()]) == Some(s@),
                None => crate::state::tag_view(self.markers()[self.end_index()]) is None,
            },
    {
        match &self.queue[self.pair()] {
            TokenQueue::End { tag: Some(t), .. } => Some(t.as_str()),
            _ => None,
        }
    }

    /// The children of the node.
    pub fn into_inner(self) -> (t: TokenTree<'i, R>)
        requires
            self.wf(),
        ensures
            t.wf(),
            t.markers() == self.markers(),
            t.text() == self.text(),
            t.start_index() == self.start_index() + 1,
            t.end_index() == self.end_index(),
    {
        let pair = self.pair();
        TokenTree::new(self.queue, self.input, self.start + 1, pair)
    }

    /// True when the node has children.
    pub fn has_child(&self) -> (b: bool)
        requires
            self.wf(),
        ensures
            b == (self.end_index() > self.start_index() + 1),
            b == (count_pairs(self.markers(), self.start_index() + 1, self.end_index()) > 0),
    {
        self.pair() > self.start + 1
    }

    /// The markers of the pair, from its start marker to its end marker.
    pub fn tokens(&self) -> (v: Vec<TokenQueue<R>>)
        requires
            self.wf(),
        ensures
            v@ == self.markers().subrange(self.start_index(), self.end_index() + 1),
    {
        let end = self.pair();
        let n = self.queue.len();
        let mut v: Vec<TokenQueue<R>> = Vec::new();
        let mut i = self.start;
        while i <= end
            invariant
                self.start <= i <= end + 1,
                end < n,
                n == self.markers().len(),
                v@ == self.markers().subrange(self.start as int, i as int),
            decreases end + 1 - i,
        {
            v.push(copy_token(&self.queue[i]));
            proof {
                assert(v@ =~= self.markers().subrange(self.start as int, i + 1));
            }
            i = i + 1;
        }
        v
    }

    /// Another handle on the same pair.
    pub fn duplicate(&self) -> (p: Self)
        ensures
            p == *self,
    {
        TokenPair { queue: share(&self.queue), input: self.input, start: self.start }
    }
}

impl<'i, R: Copy> TokenTree<'i, R> {
    /// The frozen queue.
    pub closed spec fn markers(&self) -> Seq<TokenQueue<R>> {
        (*self.queue)@
    }

    /// The code points of the input text.
    pub closed spec fn text(&self) -> Seq<char> {
        self.input@
    }

    /// Queue index at which the row starts.
    pub closed spec fn start_index(&self) -> int {
        self.start as int
    }

    /// Queue index at which the row ends.
    pub closed spec fn end_index(&self) -> int {
        self.end as int
    }

    /// The row is a forest of the queue, over a queue whose offsets are
    /// boundaries of the text in rising order.
    pub open spec fn wf(&self) -> bool {
        &&& byte_len(self.text()) < usize::MAX
        &&& offsets_sorted(self.markers())
        &&& offsets_in_text(self.markers(), self.text(), byte_len(self.text()) as int)
        &&& 0 <= self.start_index() <= self.end_index() <= self.markers().len()
        &&& forest(self.markers(), self.start_index(), self.end_index())
    }

    /// Number of pairs in the row.
    pub open spec fn count(&self) -> nat {
        count_pairs(self.markers(), self.start_index(), self.end_index())
    }

    /// The row of `queue` from `start` up to `end`.
    pub(crate) fn new(queue: Rc<Vec<TokenQueue<R>>>, input: &'i str, start: usize, end: usize) -> (t:
        Self)
        requires
            byte_len(input@) < usize::MAX,
            offsets_sorted((*queue)@),
            offsets_in_text((*queue)@, input@, byte_len(input@) as int),
            start <= end <= (*queue)@.len(),
            forest((*queue)@, start as int, end as int),
        ensures
            t.wf(),
            t.markers() == (*queue)@,
            t.text() == input@,
            t.start_index() == start,
            t.end_index() == end,
    {
        TokenTree { queue, input, start, end }
    }

    /// The row that holds just `pair`.
    pub fn single(pair: TokenPair<'i, R>) -> (t: Self)
        requires
            pair.wf(),
        ensures
            t.wf(),
            t.markers() == pair.markers(),
            t.text() == pair.text(),
            t.start_index() == pair.start_index(),
            t.end_index() == pair.end_index() + 1,
            t.count() == 1,
    {
        let end = pair.pair();
        let n = pair.queue.len();
        proof {
            lemma_forest_wrap(pair.markers(), pair.start_index(), end as int);
            assert(count_pairs(pair.markers(), end + 1, end + 1) == 0);
        }
        TokenTree { queue: pair.queue, input: pair.input, start: pair.start, end: end + 1 }
    }

    /// The whole input text.
    pub fn get_input(&self) -> (s: &'i str)
        ensures
            s@ == self.text(),
    {
        self.input
    }

    /// True when the row holds no pair.
    pub fn is_empty(&self) -> (b: bool)
        requires
            self.wf(),
        ensures
            b == (self.count() == 0),
    {
        self.start >= self.end
    }

    /// The first pair of the row, if there is one.
    pub fn peek(&self) -> (p: Option<TokenPair<'i, R>>)
        requires
            self.wf(),
        ensures
            p is Some <==> self.count() > 0,
            p matches Some(pair) ==> pair.wf() && pair.markers() == self.markers() && pair.text()
                == self.text() && pair.start_index() == self.start_index(),
    {
        if self.start < self.end {
            Some(TokenPair::new(share(&self.queue), self.input, self.start))
        } else {
            None
        }
    }

    /// The pairs of the row, in the order of the text.
    pub fn pairs(&self) -> (v: Vec<TokenPair<'i, R>>)
        requires
            self.wf(),
        ensures
            v.len() == self.count(),
            forall|k: int|
                0 <= k < v.len() ==> {
                    &&& (#[trigger] v[k]).wf()
                    &&& v[k].markers() == self.markers()
                    &&& v[k].text() == self.text()
                    &&& v[k].start_index() == nth_pair(self.markers(), self.start_index(), k as nat)
                },
    {
        let mut v: Vec<TokenPair<'i, R>> = Vec::new();
        let mut i = self.start;
        let ghost q = self.markers();
        while i < self.end
            invariant
                self.wf(),
                q == self.markers(),
                self.start <= i <= self.end,
                forest(q, i as int, self.end as int),
                v.len() + count_pairs(q, i as int, self.end as int) == self.count(),
                forall|k: nat| nth_pair(q, i as int, k) == #[trigger] nth_pair(
                    q,
                    self.start as int,
                    v.len() as nat + k,
                ),
                forall|k: int|
                    0 <= k < v.len() ==> {
                        &&& (#[trigger] v[k]).wf()
                        &&& v[k].markers() == q
                        &&& v[k].text() == self.text()
                        &&& v[k].start_index() == nth_pair(q, self.start as int, k as nat)
                    },
            decreases self.end - i,
        {
            let pair = TokenPair::new(share(&self.queue), self.input, i);
            let next = pair.pair() + 1;
            proof {
                assert(nth_pair(q, i as int, 0) == i);
                assert(nth_pair(q, self.start as int, v.len() as nat + 0) == i);
                assert forall|k: nat| nth_pair(q, next as int, k) == #[trigger] nth_pair(
                    q,
                    self.start as int,
                    (v.len() + 1) as nat + k,
                ) by {
                    assert(nth_pair(q, i as int, k + 1) == nth_pair(q, next as int, k));
                    assert(nth_pair(q, i as int, k + 1) == nth_pair(
                        q,
                        self.start as int,
                        v.len() as nat + (k + 1),
                    ));
                }
            }
            v.push(pair);
            i = next;
        }
        v
    }

    /// The texts of the leaves of the row, one after the other.
    pub fn leaves_text(&self) -> (s: String)
        requires
            self.wf(),
        ensures
            s@ == leaf_text(self.markers(), self.text(), self.start_index(), self.end_index()),
    {
        let mut s = String::new();
        let mut i = self.start;
        let ghost q = self.markers();
        let ghost t = self.text();
        while i < self.end
            invariant
                self.wf(),
                q == self.markers(),
                t == self.text(),
                self.start <= i <= self.end + 1,
                s@ + leaf_text(q, t, i as int, self.end as int) == leaf_text(
                    q,
                    t,
                    self.start as int,
                    self.end as int,
                ),
            decreases self.end + 1 - i,
        {
            let here = &self.queue[i];
            let leaf = match here {
                TokenQueue::Start { end_token_index, .. } => i < usize::MAX && *end_token_index == i
                    + 1 && i + 1 < self.end,
                TokenQueue::End { .. } => false,
            };
            if leaf {
                let a = here.input_offset();
                let b = self.queue[i + 1].input_offset();
                let part = slice_between(self.input, a, b);
                let ghost before = s@;
                s.append(part);
                proof {
                    assert(before + (part@ + leaf_text(q, t, i + 2, self.end as int)) =~= (before
                        + part@) + leaf_text(q, t, i + 2, self.end as int));
                }
                i = i + 2;
            } else {
                i = i + 1;
            }
        }
        proof {
            assert(s@ + Seq::<char>::empty() =~= s@);
        }
        s
    }
}

/// The pairs that stand side by side from `lo` up to `hi`, written one
/// after the other with `, ` between them. A pair is written as the name of
/// its rule and, between parentheses, the byte offsets at which it starts
/// and ends and, if it has any, its children between brackets. `labels`
/// holds the name for the start marker at each queue index.
pub open spec fn shown<R>(q: Seq<TokenQueue<R>>, labels: Seq<Seq<char>>, lo: int, hi: int) -> Seq<char>
    decreases hi - lo,
{
    let j = pair_end(q, lo);
    if lo >= hi || j <= lo || j >= hi {
        Seq::<char>::empty()
    } else {
        let head = labels[lo] + seq!['('] + decimal(q[lo].offset() as nat) + seq![',', ' ']
            + decimal(q[j].offset() as nat);
        let whole = if j == lo + 1 {
            head + seq![')']
        } else {
            head + seq![',', ' ', '['] + shown(q, labels, lo + 1, j) + seq![']', ')']
        };
        if j + 1 >= hi {
            whole
        } else {
            whole + seq![',', ' '] + shown(q, labels, j + 1, hi)
        }
    }
}

/// True when `names` holds, at the queue index of each start marker from
/// `lo` up to `hi`, a name that `f` gave to the rule of the marker.
pub open spec fn labelled_by<R, F: Fn(&R) -> String>(
    f: F,
    q: Seq<TokenQueue<R>>,
    names: Seq<String>,
    lo: int,
    hi: int,
) -> bool {
    &&& names.len() == q.len()
    &&& forall|i: int|
        lo <= i < hi && q[i] is Start ==> f.ensures((&q[i].rule_of(),), #[trigger] names[i])
}

/// Appends `, ` to `out`.
fn push_comma(out: &mut String)
    ensures
        final(out)@ == old(out)@ + seq![',', ' '],
{
    out.push(',');
    out.push(' ');
    proof {
        assert(out@ =~= old(out)@ + seq![',', ' ']);
    }
}

/// Appends the pairs from `lo` up to `hi` to `out`, each with the name that
/// `names` holds at the queue index of its start marker.
pub fn push_pairs<R>(
    out: &mut String,
    queue: &Vec<TokenQueue<R>>,
    names: &Vec<String>,
    lo: usize,
    hi: usize,
)
    requires
        hi <= queue.len(),
        names.len() == queue.len(),
        forest(queue@, lo as int, hi as int),
    ensures
        final(out)@ == old(out)@ + shown(queue@, views(names@), lo as int, hi as int),
    decreases hi - lo,
{
    let ghost q = queue@;
    let ghost labels = views(names@);
    if lo >= hi {
        proof {
            assert(out@ =~= old(out)@ + shown(q, labels, lo as int, hi as int));
        }
        return ;
    }
    let j = match &queue[lo] {
        TokenQueue::Start { end_token_index, .. } => *end_token_index,
        TokenQueue::End { .. } => lo,
    };
    out.append(names[lo].as_str());
    out.push('(');
    push_decimal(out, queue[lo].input_offset());
    push_comma(out);
    push_decimal(out, queue[j].input_offset());
    let ghost head = labels[lo as int] + seq!['('] + decimal(q[lo as int].offset() as nat) + seq![
        ',',
        ' ',
    ] + decimal(q[j as int].offset() as nat);
    proof {
        assert(out@ =~= old(out)@ + head);
    }
    if j == lo + 1 {
        out.push(')');
    } else {
        push_comma(out);
        out.push('[');
        push_pairs(out, queue, names, lo + 1, j);
        out.push(']');
        out.push(')');
    }
    let ghost whole = if j == lo + 1 {
        head + seq![')']
    } else {
        head + seq![',', ' ', '['] + shown(q, labels, lo + 1, j as int) + seq![']', ')']
    };
    proof {
        assert(out@ =~= old(out)@ + whole);
    }
    if j + 1 < hi {
        push_comma(out);
        push_pairs(out, queue, names, j + 1, hi);
        proof {
            assert(out@ =~= old(out)@ + (whole + seq![',', ' '] + shown(
                q,
                labels,
                j + 1,
                hi as int,
            )));
        }
    }
}

/// The names that `f` gives to the rules of the start markers from `lo` up
/// to `hi`, each at the queue index of its marker.
pub fn label_markers<R, F: Fn(&R) -> String>(
    queue: &Vec<TokenQueue<R>>,
    lo: usize,
    hi: usize,
    f: &F,
) -> (names: Vec<String>)
    requires
        hi <= queue.len(),
        forall|r: R| f.requires((&r,)),
    ensures
        labelled_by(*f, queue@, names@, lo as int, hi as int),
{
    let mut names: Vec<String> = Vec::new();
    let mut i: usize = 0;
    while i < queue.len()
        invariant
            i <= queue.len(),
            names.len() == i,
            forall|r: R| f.requires((&r,)),
            forall|k: int|
                lo <= k < hi && k < i && queue@[k] is Start ==> f.ensures(
                    (&queue@[k].rule_of(),),
                    #[trigger] names@[k],
                ),
        decreases queue.len() - i,
    {
        let name = match &queue[i] {
            TokenQueue::Start { rule, .. } => {
                if lo <= i && i < hi {
                    f(rule)
                } else {
                    String::new()
                }
            },
            TokenQueue::End { .. } => String::new(),
        };
        names.push(name);
        i = i + 1;
    }
    names
}

/// The `Debug` forms of the rules of the start markers from `lo` up to
/// `hi`, each at the queue index of its marker.
fn debug_markers<R: core::fmt::Debug>(queue: &Vec<TokenQueue<R>>, lo: usize, hi: usize) -> (names:
    Vec<String>)
    ensures
        names.len() == queue.len(),
{
    let mut names: Vec<String> = Vec::new();
    let mut i: usize = 0;
    while i < queue.len()
        invariant
            i <= queue.len(),
            names.len() == i,
        decreases queue.len() - i,
    {
        let name = match &queue[i] {
            TokenQueue::Start { rule, .. } => {
                if lo <= i && i < hi {
                    debug_text(rule)
                } else {
                    String::new()
                }
            },
            TokenQueue::End { .. } => String::new(),
        };
        names.push(name);
        i = i + 1;
    }
    names
}

impl<'i, R: Copy> TokenPair<'i, R> {
    /// The pair as a text, with each rule named as `f` names it.
    pub fn to_text_with<F: Fn(&R) -> String>(&self, f: F) -> (s: String)
        requires
            self.wf(),
            forall|r: R| f.requires((&r,)),
        ensures
            exists|names: Seq<String>|
                labelled_by(f, self.markers(), names, self.start_index(), self.end_index() + 1)
                    && s@ == shown(
                    self.markers(),
                    views(names),
                    self.start_index(),
                    self.end_index() + 1,
                ),
    {
        let end = self.pair();
        let n = self.queue.len();
        proof {
            lemma_forest_wrap(self.markers(), self.start_index(), end as int);
        }
        let names = label_markers(&self.queue, self.start, end + 1, &f);
        let mut s = String::new();
        push_pairs(&mut s, &self.queue, &names, self.start, end + 1);
        proof {
            let text = shown(self.markers(), views(names@), self.start_index(), end + 1);
            assert(Seq::<char>::empty() + text =~= text);
            assert(labelled_by(f, self.markers(), names@, self.start_index(), end + 1) && s@
                == shown(self.markers(), views(names@), self.start_index(), end + 1));
        }
        s
    }

    /// The pair as a text, with each rule in its `Debug` form.
    pub fn to_text(&self) -> (s: String) where R: core::fmt::Debug
        requires
            self.wf(),
        ensures
            exists|names: Seq<String>|
                names.len() == self.markers().len() && s@ == shown(
                    self.markers(),
                    views(names),
                    self.start_index(),
                    self.end_index() + 1,
                ),
    {
        let end = self.pair();
        let n = self.queue.len();
        proof {
            lemma_forest_wrap(self.markers(), self.start_index(), end as int);
        }
        let names = debug_markers(&self.queue, self.start, end + 1);
        let mut s = String::new();
        push_pairs(&mut s, &self.queue, &names, self.start, end + 1);
        proof {
            let text = shown(self.markers(), views(names@), self.start_index(), end + 1);
            assert(Seq::<char>::empty() + text =~= text);
            assert(names@.len() == self.markers().len() && s@ == shown(
                self.markers(),
                views(names@),
                self.start_index(),
                end + 1,
            ));
        }
        s
    }
}

} // verus!
