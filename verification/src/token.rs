//! The linear queue of start and end markers that a parse writes.
//!
//! A stretch of the queue is a forest when it is a row of matching pairs,
//! each of which holds a forest between its two markers.

use crate::text::on_boundary;
use vstd::prelude::*;

verus! {

/// One marker of the queue.
#[derive(Clone, Debug)]
pub enum TokenQueue<R> {
    /// A rule started to match here.
    Start {
        /// The rule that matched.
        rule: R,
        /// Byte offset at which the match starts.
        input_offset: usize,
        /// Queue index of the matching end marker.
        end_token_index: usize,
    },
    /// A rule matched up to here.
    End {
        /// The rule that matched.
        rule: R,
        /// Byte offset at which the match ends.
        input_offset: usize,
        /// Name that the grammar gave to this node, if any.
        tag: Option<String>,
    },
}

impl<R> TokenQueue<R> {
    /// The byte offset that the marker carries.
    pub open spec fn offset(self) -> int {
        match self {
            TokenQueue::Start { input_offset, .. } => input_offset as int,
            TokenQueue::End { input_offset, .. } => input_offset as int,
        }
    }

    /// The rule that the marker carries.
    pub open spec fn rule_of(self) -> R {
        match self {
            TokenQueue::Start { rule, .. } => rule,
            TokenQueue::End { rule, .. } => rule,
        }
    }

    /// The byte offset that the marker carries.
    pub fn input_offset(&self) -> (n: usize)
        ensures
            n == self.offset(),
    {
        match self {
            TokenQueue::Start { input_offset, .. } => *input_offset,
            TokenQueue::End { input_offset, .. } => *input_offset,
        }
    }
}

/// True when `q[i]` is a start marker whose end marker stands at `j`,
/// carries the same rule and an offset that is not smaller.
pub open spec fn is_pair<R>(q: Seq<TokenQueue<R>>, i: int, j: int) -> bool {
    &&& 0 <= i < j < q.len()
    &&& q[i] is Start
    &&& q[i]->end_token_index == j
    &&& q[j] is End
    &&& q[j].rule_of() == q[i].rule_of()
    &&& q[i].offset() <= q[j].offset()
}

/// Queue index of the end marker that the start marker at `i` names.
pub open spec fn pair_end<R>(q: Seq<TokenQueue<R>>, i: int) -> int {
    q[i]->end_token_index as int
}

/// True when the markers from `lo` up to `hi` are a row of matching pairs,
/// each of which holds such a row again.
pub open spec fn forest<R>(q: Seq<TokenQueue<R>>, lo: int, hi: int) -> bool
    decreases hi - lo,
{
    if lo >= hi {
        lo == hi
    } else {
        let j = pair_end(q, lo);
        &&& is_pair(q, lo, j)
        &&& j < hi
        &&& forest(q, lo + 1, j)
        &&& forest(q, j + 1, hi)
    }
}

/// True when the offsets of the markers never decrease along the queue.
pub open spec fn offsets_sorted<R>(q: Seq<TokenQueue<R>>) -> bool {
    forall|i: int, j: int| 0 <= i <= j < q.len() ==> (#[trigger] q[i]).offset() <= (#[trigger] q[j]).offset()
}

/// True when every offset of the queue is a code point boundary of `text`
/// that is not beyond `limit`.
pub open spec fn offsets_in_text<R>(q: Seq<TokenQueue<R>>, text: Seq<char>, limit: int) -> bool {
    forall|i: int|
        0 <= i < q.len() ==> on_boundary(text, (#[trigger] q[i]).offset()) && q[i].offset()
            <= limit
}

/// True when `q` is the queue of a finished parse of `text`.
pub open spec fn frozen_queue<R>(q: Seq<TokenQueue<R>>, text: Seq<char>) -> bool {
    &&& forest(q, 0, q.len() as int)
    &&& offsets_sorted(q)
    &&& offsets_in_text(q, text, crate::text::byte_len(text) as int)
}

/// Whether a stretch is a forest depends on its own markers only.
pub proof fn lemma_forest_frame<R>(a: Seq<TokenQueue<R>>, b: Seq<TokenQueue<R>>, lo: int, hi: int)
    requires
        0 <= lo,
        hi <= a.len(),
        hi <= b.len(),
        forall|i: int| lo <= i < hi ==> a[i] == b[i],
        forest(a, lo, hi),
    ensures
        forest(b, lo, hi),
    decreases hi - lo,
{
    if lo < hi {
        let j = pair_end(a, lo);
        lemma_forest_frame(a, b, lo + 1, j);
        lemma_forest_frame(a, b, j + 1, hi);
    }
}

/// Two forests side by side are a forest.
pub proof fn lemma_forest_concat<R>(q: Seq<TokenQueue<R>>, a: int, b: int, c: int)
    requires
        forest(q, a, b),
        forest(q, b, c),
    ensures
        forest(q, a, c),
    decreases b - a,
{
    if a < b {
        let j = pair_end(q, a);
        lemma_forest_bounds(q, j + 1, b);
        lemma_forest_bounds(q, b, c);
        lemma_forest_concat(q, j + 1, b, c);
    }
}

/// A forest ends where it is said to end, or after.
pub proof fn lemma_forest_bounds<R>(q: Seq<TokenQueue<R>>, lo: int, hi: int)
    requires
        forest(q, lo, hi),
    ensures
        lo <= hi,
{
}

/// A pair around a forest is a forest.
pub proof fn lemma_forest_wrap<R>(q: Seq<TokenQueue<R>>, i: int, j: int)
    requires
        is_pair(q, i, j),
        forest(q, i + 1, j),
    ensures
        forest(q, i, j + 1),
{
    assert(forest(q, j + 1, j + 1));
}

/// In a forest every start marker has its end marker inside the forest, and
/// a forest between the two.
pub proof fn lemma_forest_pair<R>(q: Seq<TokenQueue<R>>, lo: int, hi: int, i: int)
    requires
        forest(q, lo, hi),
        0 <= lo <= i < hi,
        q[i] is Start,
    ensures
        is_pair(q, i, pair_end(q, i)),
        pair_end(q, i) < hi,
        forest(q, i + 1, pair_end(q, i)),
    decreases hi - lo,
{
    let j = pair_end(q, lo);
    if i == lo {
    } else if i < j {
        lemma_forest_pair(q, lo + 1, j, i);
    } else if i == j {
    } else {
        lemma_forest_pair(q, j + 1, hi, i);
    }
}

/// In a forest every end marker closes a start marker of the forest.
pub proof fn lemma_forest_end<R>(q: Seq<TokenQueue<R>>, lo: int, hi: int, j: int) -> (i: int)
    requires
        forest(q, lo, hi),
        0 <= lo <= j < hi,
        q[j] is End,
    ensures
        lo <= i < j,
        is_pair(q, i, j),
    decreases hi - lo,
{
    let e = pair_end(q, lo);
    if j == e {
        lo
    } else if j < e {
        lemma_forest_end(q, lo + 1, e, j)
    } else {
        lemma_forest_end(q, e + 1, hi, j)
    }
}

/// Every start marker of a finished parse has a matching end marker later
/// in the queue, at an offset that is not smaller. Any two pairs lie apart
/// or one inside the other.
pub proof fn lemma_pairs_nested<R>(q: Seq<TokenQueue<R>>, text: Seq<char>, i: int, k: int)
    requires
        frozen_queue(q, text),
        0 <= i < k < q.len(),
        q[i] is Start,
        q[k] is Start,
    ensures
        is_pair(q, i, pair_end(q, i)),
        is_pair(q, k, pair_end(q, k)),
        q[i].offset() <= q[pair_end(q, i)].offset(),
        pair_end(q, i) < k || pair_end(q, k) < pair_end(q, i),
{
    lemma_forest_pair(q, 0, q.len() as int, i);
    lemma_forest_pair(q, 0, q.len() as int, k);
    let j = pair_end(q, i);
    if k < j {
        lemma_forest_pair(q, i + 1, j, k);
    }
}

} // verus!
