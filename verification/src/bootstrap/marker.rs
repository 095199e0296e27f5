//! From the tree of a parse to a tree of marked nodes.
//!
//! A marked node holds the text that a pair covers, a mark, the place of
//! the text and its children. Of what stands between the parts of a
//! statement, every comment, every run of spaces and every end of a line
//! becomes a node of its own.

use crate::bootstrap::parse::{
    adds_plain, place, plain, program, program_end, statement_len, statement_row, wraps, Rule,
};
use crate::errors::YggdrasilError;
use crate::pair::{count_pairs, nth_pair, TokenPair};
use crate::state::{concludes, follows, is_fresh, state, Atomicity, Either, State};
use crate::text::{byte_len, char_index, chars_between};
use crate::token::{forest, is_pair, offsets_in_text, pair_end, TokenQueue};
use vstd::prelude::*;

verus! {

/// The place of a text: two byte offsets.
#[derive(Clone, Copy, Debug, PartialEq, Eq, Structural)]
pub struct OffsetRange {
    /// Byte offset at which the text starts.
    pub start: usize,
    /// Byte offset at which it ends.
    pub end: usize,
}

/// A marked node.
#[derive(Debug)]
pub struct CSTNode<'input> {
    /// The text that the node covers.
    pub text: &'input str,
    /// The mark of the node.
    pub mark: Option<&'static str>,
    /// The place of the text.
    pub position: OffsetRange,
    /// The children of the node.
    pub children: Vec<CSTNode<'input>>,
}

/// The model of a marked node.
pub struct CstView {
    pub text: Seq<char>,
    pub mark: Option<Seq<char>>,
    pub range: (int, int),
    pub children: Seq<CstView>,
}

/// The model of the first `k` of `s`.
pub open spec fn cst_views<'a>(s: Seq<CSTNode<'a>>, k: nat) -> Seq<CstView>
    decreases s, k,
{
    if k == 0 || k > s.len() {
        Seq::<CstView>::empty()
    } else {
        cst_views(s, (k - 1) as nat).push(cst_view(s[k - 1]))
    }
}

/// The model of a marked node.
pub open spec fn cst_view<'a>(n: CSTNode<'a>) -> CstView
    decreases n,
{
    CstView {
        text: n.text@,
        mark: match n.mark {
            Some(m) => Some(m@),
            None => None,
        },
        range: (n.position.start as int, n.position.end as int),
        children: cst_views(n.children@, n.children@.len()),
    }
}

/// The node without children for the pair of `q` that starts at `i`.
pub open spec fn leaf_view(
    q: Seq<TokenQueue<Rule>>,
    text: Seq<char>,
    i: int,
    mark: Option<Seq<char>>,
) -> CstView {
    branch_view(q, text, i, mark, Seq::<CstView>::empty())
}

/// The node with the children `children` for the pair of `q` that starts
/// at `i`.
pub open spec fn branch_view(
    q: Seq<TokenQueue<Rule>>,
    text: Seq<char>,
    i: int,
    mark: Option<Seq<char>>,
    children: Seq<CstView>,
) -> CstView {
    CstView {
        text: chars_between(text, q[i].offset(), q[pair_end(q, i)].offset()),
        mark,
        range: (q[i].offset(), q[pair_end(q, i)].offset()),
        children,
    }
}

/// True for the rules that a node between the parts of a statement may
/// have.
pub open spec fn is_trivia(r: Rule) -> bool {
    r == Rule::COMMENT || r == Rule::WHITE_SPACE || r == Rule::NEWLINE
}

/// The nodes for the first `n` of the pairs that stand side by side from
/// `lo` on, all of which stand between the parts of a statement, or nothing
/// where one of them is something else.
pub open spec fn trivia_nodes(q: Seq<TokenQueue<Rule>>, text: Seq<char>, lo: int, n: nat) -> Option<
    Seq<CstView>,
>
    decreases n,
{
    if n == 0 {
        Some(Seq::<CstView>::empty())
    } else {
        let at = nth_pair(q, lo, (n - 1) as nat);
        match trivia_nodes(q, text, lo, (n - 1) as nat) {
            None => None,
            Some(nodes) => if is_trivia(q[at].rule_of()) {
                Some(nodes.push(leaf_view(q, text, at, None)))
            } else {
                None
            },
        }
    }
}

/// Number of pairs that stand side by side inside the pair at `i`.
pub open spec fn inner_count(q: Seq<TokenQueue<Rule>>, i: int) -> nat {
    crate::pair::count_pairs(q, i + 1, pair_end(q, i))
}

/// The children of a statement among the first `n` of the pairs that stand
/// side by side from `lo` on: the nodes of what stands between its parts.
pub open spec fn statement_children(
    q: Seq<TokenQueue<Rule>>,
    text: Seq<char>,
    lo: int,
    n: nat,
) -> Option<Seq<CstView>>
    decreases n,
{
    if n == 0 {
        Some(Seq::<CstView>::empty())
    } else {
        let at = nth_pair(q, lo, (n - 1) as nat);
        match statement_children(q, text, lo, (n - 1) as nat) {
            None => None,
            Some(nodes) => if q[at].rule_of() == Rule::WHITESPACE {
                match trivia_nodes(q, text, at + 1, inner_count(q, at)) {
                    Some(more) => Some(nodes + more),
                    None => None,
                }
            } else {
                Some(nodes)
            },
        }
    }
}

/// The node of the statement at `i`.
pub open spec fn statement_view(
    q: Seq<TokenQueue<Rule>>,
    text: Seq<char>,
    i: int,
    mark: Option<Seq<char>>,
) -> Option<CstView> {
    match statement_children(q, text, i + 1, inner_count(q, i)) {
        Some(children) => Some(branch_view(q, text, i, mark, children)),
        None => None,
    }
}

/// The children of a program among the first `n` of the pairs that stand
/// side by side from `lo` on: its statements, and the nodes of what stands
/// between them.
pub open spec fn program_children(
    q: Seq<TokenQueue<Rule>>,
    text: Seq<char>,
    lo: int,
    n: nat,
) -> Option<Seq<CstView>>
    decreases n,
{
    if n == 0 {
        Some(Seq::<CstView>::empty())
    } else {
        let at = nth_pair(q, lo, (n - 1) as nat);
        match program_children(q, text, lo, (n - 1) as nat) {
            None => None,
            Some(nodes) => if q[at].rule_of() == Rule::WHITESPACE {
                match trivia_nodes(q, text, at + 1, inner_count(q, at)) {
                    Some(more) => Some(nodes + more),
                    None => None,
                }
            } else if q[at].rule_of() == Rule::statement {
                match statement_view(q, text, at, Some("statement"@)) {
                    Some(node) => Some(nodes.push(node)),
                    None => None,
                }
            } else {
                Some(nodes)
            },
        }
    }
}

/// The node of the program at `i`.
pub open spec fn program_view(
    q: Seq<TokenQueue<Rule>>,
    text: Seq<char>,
    i: int,
    mark: Option<Seq<char>>,
) -> Option<CstView> {
    match program_children(q, text, i + 1, inner_count(q, i)) {
        Some(children) => Some(branch_view(q, text, i, mark, children)),
        None => None,
    }
}

/// The models of a row with one more member.
proof fn lemma_cst_views_push<'a>(s: Seq<CSTNode<'a>>, n: CSTNode<'a>)
    ensures
        cst_views(s.push(n), (s.len() + 1) as nat) == cst_views(s, s.len()).push(cst_view(n)),
{
    lemma_cst_views_frame(s, s.push(n), s.len());
    assert(s.push(n)[s.len() as int] == n);
}

/// The models of the first members depend on them only.
proof fn lemma_cst_views_frame<'a>(a: Seq<CSTNode<'a>>, b: Seq<CSTNode<'a>>, k: nat)
    requires
        k <= a.len(),
        k <= b.len(),
        forall|i: int| 0 <= i < k ==> a[i] == b[i],
    ensures
        cst_views(a, k) == cst_views(b, k),
    decreases k,
{
    if k > 0 {
        lemma_cst_views_frame(a, b, (k - 1) as nat);
    }
}

/// Turns the tree of a parse into a tree of marked nodes.
#[derive(Clone, Copy, Debug)]
pub struct YGGMarker {}

/// What marking hands back: the value, or the pair that cannot be marked.
pub type MarkResult<T> = Result<T, YggdrasilError<Rule>>;

/// The place of the text that `pair` covers.
pub fn get_position<'i>(pair: &TokenPair<'i, Rule>) -> (r: OffsetRange)
    requires
        pair.wf(),
    ensures
        r.start == pair.markers()[pair.start_index()].offset(),
        r.end == pair.markers()[pair.end_index()].offset(),
{
    let span = pair.as_span();
    OffsetRange { start: span.start(), end: span.end() }
}

impl YGGMarker {
    /// The node without children for `pairs`, with the mark `mark`.
    pub fn atomic<'i>(&self, pairs: TokenPair<'i, Rule>, mark: Option<&'static str>) -> (r:
        MarkResult<CSTNode<'i>>)
        requires
            pairs.wf(),
        ensures
            r matches Ok(node) && cst_view(node) == leaf_view(
                pairs.markers(),
                pairs.text(),
                pairs.start_index(),
                match mark {
                    Some(m) => Some(m@),
                    None => None,
                },
            ),
    {
        let position = get_position(&pairs);
        let text = pairs.as_str();
        Ok(CSTNode { text, mark, position, children: Vec::new() })
    }

    /// Adds a node to `nodes` for every pair inside `pairs`, all of which
    /// stand between the parts of a statement. Fails at the first pair that
    /// is something else.
    pub fn split_whitespace<'i>(&self, nodes: &mut Vec<CSTNode<'i>>, pairs: TokenPair<'i, Rule>) -> (r:
        MarkResult<()>)
        requires
            pairs.wf(),
        ensures
            r is Ok <==> trivia_nodes(
                pairs.markers(),
                pairs.text(),
                pairs.start_index() + 1,
                inner_count(pairs.markers(), pairs.start_index()),
            ) is Some,
            r is Ok ==> cst_views(final(nodes)@, final(nodes)@.len()) == cst_views(
                old(nodes)@,
                old(nodes)@.len(),
            ) + trivia_nodes(
                pairs.markers(),
                pairs.text(),
                pairs.start_index() + 1,
                inner_count(pairs.markers(), pairs.start_index()),
            )->0,
    {
        let ghost q = pairs.markers();
        let ghost text = pairs.text();
        let ghost lo = pairs.start_index() + 1;
        let ghost first = cst_views(nodes@, nodes@.len());
        let ghost count = inner_count(pairs.markers(), pairs.start_index());
        let inner = pairs.into_inner().pairs();
        let mut i: usize = 0;
        proof {
            assert(first + Seq::<CstView>::empty() =~= first);
        }
        while i < inner.len()
            invariant
                i <= inner.len(),
                inner.len() == count,
                count == inner_count(q, lo - 1),
                q == pairs.markers(),
                text == pairs.text(),
                lo == pairs.start_index() + 1,
                forall|k: int|
                    0 <= k < inner.len() ==> {
                        &&& (#[trigger] inner[k]).wf()
                        &&& inner[k].markers() == q
                        &&& inner[k].text() == text
                        &&& inner[k].start_index() == nth_pair(q, lo, k as nat)
                    },
                trivia_nodes(q, text, lo, i as nat) is Some,
                cst_views(nodes@, nodes@.len()) == first + trivia_nodes(q, text, lo, i as nat)->0,
            decreases inner.len() - i,
        {
            let child = inner[i].duplicate();
            match child.as_rule() {
                Rule::COMMENT | Rule::WHITE_SPACE | Rule::NEWLINE => {
                    match self.atomic(child, None) {
                        Ok(node) => {
                            proof {
                                lemma_cst_views_push(nodes@, node);
                            }
                            nodes.push(node);
                            proof {
                                assert(cst_views(nodes@, nodes@.len()) =~= first + trivia_nodes(
                                    q,
                                    text,
                                    lo,
                                    (i + 1) as nat,
                                )->0);
                            }
                        },
                        Err(e) => {
                            return Err(e);
                        },
                    }
                },
                other => {
                    proof {
                        lemma_trivia_fails(q, text, lo, (i + 1) as nat, inner.len() as nat);
                    }
                    return Err(YggdrasilError::invalid_node(other, child.as_span()));
                },
            }
            i = i + 1;
        }
        Ok(())
    }

    /// The node of the statement `pairs`, with the mark `mark`.
    pub fn mark_statement<'i>(&self, pairs: TokenPair<'i, Rule>, mark: Option<&'static str>) -> (r:
        MarkResult<CSTNode<'i>>)
        requires
            pairs.wf(),
        ensures
            match r {
                Ok(node) => statement_view(
                    pairs.markers(),
                    pairs.text(),
                    pairs.start_index(),
                    match mark {
                        Some(m) => Some(m@),
                        None => None,
                    },
                ) == Some(cst_view(node)),
                Err(_) => statement_view(
                    pairs.markers(),
                    pairs.text(),
                    pairs.start_index(),
                    match mark {
                        Some(m) => Some(m@),
                        None => None,
                    },
                ) is None,
            },
    {
        let ghost q = pairs.markers();
        let ghost text = pairs.text();
        let ghost lo = pairs.start_index() + 1;
        let position = get_position(&pairs);
        let covered = pairs.as_str();
        let mut children: Vec<CSTNode<'i>> = Vec::new();
        let ghost count = inner_count(pairs.markers(), pairs.start_index());
        let inner = pairs.into_inner().pairs();
        let mut i: usize = 0;
        while i < inner.len()
            invariant
                i <= inner.len(),
                inner.len() == count,
                count == inner_count(q, lo - 1),
                q == pairs.markers(),
                text == pairs.text(),
                lo == pairs.start_index() + 1,
                forall|k: int|
                    0 <= k < inner.len() ==> {
                        &&& (#[trigger] inner[k]).wf()
                        &&& inner[k].markers() == q
                        &&& inner[k].text() == text
                        &&& inner[k].start_index() == nth_pair(q, lo, k as nat)
                    },
                statement_children(q, text, lo, i as nat) == Some(
                    cst_views(children@, children@.len()),
                ),
            decreases inner.len() - i,
        {
            let child = inner[i].duplicate();
            match child.as_rule() {
                Rule::WHITESPACE => {
                    match self.split_whitespace(&mut children, child) {
                        Ok(()) => {},
                        Err(e) => {
                            proof {
                                lemma_statement_fails(
                                    q,
                                    text,
                                    lo,
                                    (i + 1) as nat,
                                    inner.len() as nat,
                                );
                            }
                            return Err(e);
                        },
                    }
                },
                _ => {},
            }
            i = i + 1;
        }
        Ok(CSTNode { text: covered, mark, position, children })
    }

    /// The node of the program `pairs`, with the mark `mark`.
    pub fn mark_program<'i>(&self, pairs: TokenPair<'i, Rule>, mark: Option<&'static str>) -> (r:
        MarkResult<CSTNode<'i>>)
        requires
            pairs.wf(),
        ensures
            match r {
                Ok(node) => program_view(
                    pairs.markers(),
                    pairs.text(),
                    pairs.start_index(),
                    match mark {
                        Some(m) => Some(m@),
                        None => None,
                    },
                ) == Some(cst_view(node)),
                Err(_) => program_view(
                    pairs.markers(),
                    pairs.text(),
                    pairs.start_index(),
                    match mark {
                        Some(m) => Some(m@),
                        None => None,
                    },
                ) is None,
            },
    {
        let ghost q = pairs.markers();
        let ghost text = pairs.text();
        let ghost lo = pairs.start_index() + 1;
        let position = get_position(&pairs);
        let covered = pairs.as_str();
        let mut children: Vec<CSTNode<'i>> = Vec::new();
        let ghost count = inner_count(pairs.markers(), pairs.start_index());
        let inner = pairs.into_inner().pairs();
        let mut i: usize = 0;
        while i < inner.len()
            invariant
                i <= inner.len(),
                inner.len() == count,
                count == inner_count(q, lo - 1),
                q == pairs.markers(),
                text == pairs.text(),
                lo == pairs.start_index() + 1,
                forall|k: int|
                    0 <= k < inner.len() ==> {
                        &&& (#[trigger] inner[k]).wf()
                        &&& inner[k].markers() == q
                        &&& inner[k].text() == text
                        &&& inner[k].start_index() == nth_pair(q, lo, k as nat)
                    },
                program_children(q, text, lo, i as nat) == Some(
                    cst_views(children@, children@.len()),
                ),
            decreases inner.len() - i,
        {
            let child = inner[i].duplicate();
            match child.as_rule() {
                Rule::WHITESPACE => {
                    match self.split_whitespace(&mut children, child) {
                        Ok(()) => {},
                        Err(e) => {
                            proof {
                                lemma_program_fails(q, text, lo, (i + 1) as nat, inner.len() as nat);
                            }
                            return Err(e);
                        },
                    }
                },
                Rule::statement => {
                    match self.mark_statement(child, Some("statement")) {
                        Ok(node) => {
                            proof {
                                lemma_cst_views_push(children@, node);
                            }
                            children.push(node);
                        },
                        Err(e) => {
                            proof {
                                lemma_program_fails(q, text, lo, (i + 1) as nat, inner.len() as nat);
                            }
                            return Err(e);
                        },
                    }
                },
                _ => {},
            }
            i = i + 1;
        }
        Ok(CSTNode { text: covered, mark, position, children })
    }

    /// Parses `input` as a program and marks its nodes: the node of the
    /// statements at the start of the text, with a node for each of them.
    pub fn parse_program<'i>(&mut self, input: &'i str) -> (r: MarkResult<CSTNode<'i>>)
        requires
            byte_len(input@) < usize::MAX,
        ensures
            r matches Ok(node) && cst_view(node) == program_node(input@),
    {
        let f = |s: State<'i, Rule>| -> (out: Either<State<'i, Rule>>)
            requires
                s.wf(),
            ensures
                follows(s, out),
                out matches Ok(t) && place(t) == program_end(s.text(), place(s)) && wraps(
                    s,
                    t,
                    Rule::program,
                ) && adds_plain(s, t) && (s.atomicity() != Atomicity::CompoundAtomic
                    ==> statement_row(
                    t.tokens(),
                    s.text(),
                    s.tokens().len() as int + 1,
                    t.tokens().len() as int - 1,
                    place(s),
                    place(t),
                )),
            { program(s) };
        let parsed = state(input, f);
        proof {
            let (first, out) = choose|first: State<'i, Rule>, out: Either<State<'i, Rule>>|
                is_fresh(first, input@) && #[trigger] f.ensures((first,), out) && concludes(
                    out,
                    parsed,
                );
            crate::text::lemma_ends_are_boundaries(input@);
            let t = out->Ok_0;
            let q = t.tokens();
            crate::text::lemma_offset_to_index(input@, t.offset());
            assert(crate::pair::count_pairs(q, 0, q.len() as int) > 0);
            lemma_program_marked(q, input@, q.len() as int, place(t));
        }
        match parsed {
            Ok(tree) => match tree.peek() {
                Some(pair) => self.mark_program(pair, None),
                None => Err(
                    YggdrasilError::new_from_offset(
                        crate::errors::ErrorKind::CustomError {
                            message: "the text holds no program".to_owned(),
                        },
                        crate::position::Position::from_start(input),
                    ),
                ),
            },
            Err(e) => Err(e),
        }
    }
}

/// Index of the code point at which the `k`-th of the statements starts
/// that stand one after the other from the index `at` of `text` on.
pub open spec fn nth_statement(text: Seq<char>, at: int, k: nat) -> int
    decreases k,
{
    if k == 0 {
        at
    } else {
        nth_statement(text, at + statement_len(text, at), (k - 1) as nat)
    }
}

/// Number of statements that stand one after the other from the index `at`
/// of `text` on.
pub open spec fn statement_count(text: Seq<char>, at: int) -> nat
    decreases text.len() - at,
{
    let n = statement_len(text, at);
    if 0 <= at && n > 0 && at + n <= text.len() {
        1 + statement_count(text, at + n)
    } else {
        0
    }
}

/// The node of the statement at the index `at` of `text`: its text, the
/// mark `statement`, the bytes that it covers, and no children.
pub open spec fn statement_node(text: Seq<char>, at: int) -> CstView {
    CstView {
        text: text.subrange(at, at + statement_len(text, at)),
        mark: Some("statement"@),
        range: (
            byte_len(text.take(at)) as int,
            byte_len(text.take(at + statement_len(text, at))) as int,
        ),
        children: Seq::<CstView>::empty(),
    }
}

/// The nodes of the first `k` of the statements that stand one after the
/// other from the index `at` of `text` on.
pub open spec fn statement_nodes(text: Seq<char>, at: int, k: nat) -> Seq<CstView>
    decreases k,
{
    if k == 0 {
        Seq::<CstView>::empty()
    } else {
        statement_nodes(text, at, (k - 1) as nat).push(
            statement_node(text, nth_statement(text, at, (k - 1) as nat)),
        )
    }
}

/// The node of the program at the start of `text`: the text of its
/// statements, no mark, the bytes that they cover, and their nodes.
pub open spec fn program_node(text: Seq<char>) -> CstView {
    CstView {
        text: text.take(program_end(text, 0)),
        mark: None,
        range: (0, byte_len(text.take(program_end(text, 0))) as int),
        children: statement_nodes(text, 0, statement_count(text, 0)),
    }
}

/// The pairs that stand side by side in a forest start inside it.
proof fn lemma_nth_inside(q: Seq<TokenQueue<Rule>>, lo: int, hi: int, k: nat)
    requires
        forest(q, lo, hi),
        k < count_pairs(q, lo, hi),
    ensures
        lo <= nth_pair(q, lo, k) < hi,
    decreases k,
{
    if k > 0 {
        lemma_nth_inside(q, pair_end(q, lo) + 1, hi, (k - 1) as nat);
    }
}

/// Pairs without `WHITESPACE` among them give a statement no children.
proof fn lemma_no_children(q: Seq<TokenQueue<Rule>>, text: Seq<char>, lo: int, hi: int, n: nat)
    requires
        forest(q, lo, hi),
        plain(q, lo, hi),
        n <= count_pairs(q, lo, hi),
    ensures
        statement_children(q, text, lo, n) == Some(Seq::<CstView>::empty()),
    decreases n,
{
    if n > 0 {
        lemma_no_children(q, text, lo, hi, (n - 1) as nat);
        lemma_nth_inside(q, lo, hi, (n - 1) as nat);
    }
}

/// The `k`-th pair of a row of statements is the pair of the `k`-th
/// statement.
proof fn lemma_row_nth(
    q: Seq<TokenQueue<Rule>>,
    text: Seq<char>,
    lo: int,
    hi: int,
    at: int,
    end: int,
    k: nat,
)
    requires
        statement_row(q, text, lo, hi, at, end),
        k < count_pairs(q, lo, hi),
    ensures
        ({
            let p = nth_pair(q, lo, k);
            let x = nth_statement(text, at, k);
            &&& is_pair(q, p, pair_end(q, p))
            &&& q[p].rule_of() == Rule::statement
            &&& char_index(text, q[p].offset()) == x
            &&& char_index(text, q[pair_end(q, p)].offset()) == x + statement_len(text, x)
        }),
    decreases k,
{
    if k > 0 {
        lemma_row_nth(
            q,
            text,
            pair_end(q, lo) + 1,
            hi,
            at + statement_len(text, at),
            end,
            (k - 1) as nat,
        );
    }
}

/// A scan does not stop before it starts.
proof fn lemma_program_end_after(text: Seq<char>, at: int)
    ensures
        program_end(text, at) >= at,
    decreases text.len() - at,
{
    let n = statement_len(text, at);
    if 0 <= at && n > 0 && at + n <= text.len() {
        lemma_program_end_after(text, at + n);
    }
}

/// A row of statements that ends where the statements end has a pair for
/// each of them.
proof fn lemma_row_count(
    q: Seq<TokenQueue<Rule>>,
    text: Seq<char>,
    lo: int,
    hi: int,
    at: int,
    end: int,
)
    requires
        0 <= lo,
        hi <= q.len(),
        offsets_in_text(q, text, byte_len(text) as int),
        statement_row(q, text, lo, hi, at, end),
        end == program_end(text, at),
    ensures
        count_pairs(q, lo, hi) == statement_count(text, at),
    decreases hi - lo,
{
    let n = statement_len(text, at);
    if lo < hi {
        let j = pair_end(q, lo);
        crate::text::lemma_offset_to_index(text, q[lo].offset());
        crate::text::lemma_offset_to_index(text, q[j].offset());
        lemma_row_count(q, text, j + 1, hi, at + n, end);
    } else {
        if 0 <= at && n > 0 && at + n <= text.len() {
            lemma_program_end_after(text, at + n);
        }
    }
}

/// The children of a program over a row of statements are the nodes of the
/// statements.
proof fn lemma_program_children(
    q: Seq<TokenQueue<Rule>>,
    text: Seq<char>,
    lo: int,
    hi: int,
    at: int,
    end: int,
    n: nat,
)
    requires
        0 <= lo,
        hi <= q.len(),
        forest(q, lo, hi),
        plain(q, lo, hi),
        offsets_in_text(q, text, byte_len(text) as int),
        statement_row(q, text, lo, hi, at, end),
        n <= count_pairs(q, lo, hi),
    ensures
        program_children(q, text, lo, n) == Some(statement_nodes(text, at, n)),
    decreases n,
{
    if n > 0 {
        let k = (n - 1) as nat;
        lemma_program_children(q, text, lo, hi, at, end, k);
        let p = nth_pair(q, lo, k);
        let j = pair_end(q, p);
        lemma_nth_inside(q, lo, hi, k);
        lemma_row_nth(q, text, lo, hi, at, end, k);
        crate::token::lemma_forest_pair(q, lo, hi, p);
        lemma_no_children(q, text, p + 1, j, inner_count(q, p));
        crate::text::lemma_offset_to_index(text, q[p].offset());
        crate::text::lemma_offset_to_index(text, q[j].offset());
        assert(statement_view(q, text, p, Some("statement"@)) == Some(
            statement_node(text, nth_statement(text, at, k)),
        ));
    }
}

/// The markers of a parsed program give the node of the program.
proof fn lemma_program_marked(q: Seq<TokenQueue<Rule>>, text: Seq<char>, m: int, end: int)
    requires
        m <= q.len(),
        is_pair(q, 0, m - 1),
        forest(q, 1, m - 1),
        plain(q, 0, m),
        offsets_in_text(q, text, byte_len(text) as int),
        statement_row(q, text, 1, m - 1, 0, end),
        end == program_end(text, 0),
        q[0].offset() == 0,
        char_index(text, q[m - 1].offset()) == end,
    ensures
        program_view(q, text, 0, None) == Some(program_node(text)),
{
    lemma_row_count(q, text, 1, m - 1, 0, end);
    lemma_program_children(q, text, 1, m - 1, 0, end, inner_count(q, 0));
    crate::text::lemma_ends_are_boundaries(text);
    crate::text::lemma_offset_to_index(text, q[m - 1].offset());
    assert(text.subrange(0, end) =~= text.take(end));
}

/// A pair that is something else among the first pairs is one among more
/// of them.
proof fn lemma_trivia_fails(q: Seq<TokenQueue<Rule>>, text: Seq<char>, lo: int, k: nat, n: nat)
    requires
        k <= n,
        trivia_nodes(q, text, lo, k) is None,
    ensures
        trivia_nodes(q, text, lo, n) is None,
    decreases n - k,
{
    if k < n {
        lemma_trivia_fails(q, text, lo, k, (n - 1) as nat);
    }
}

/// A failure among the first pairs is one among more of them.
proof fn lemma_statement_fails(q: Seq<TokenQueue<Rule>>, text: Seq<char>, lo: int, k: nat, n: nat)
    requires
        k <= n,
        statement_children(q, text, lo, k) is None,
    ensures
        statement_children(q, text, lo, n) is None,
    decreases n - k,
{
    if k < n {
        lemma_statement_fails(q, text, lo, k, (n - 1) as nat);
    }
}

/// A failure among the first pairs is one among more of them.
proof fn lemma_program_fails(q: Seq<TokenQueue<Rule>>, text: Seq<char>, lo: int, k: nat, n: nat)
    requires
        k <= n,
        program_children(q, text, lo, k) is None,
    ensures
        program_children(q, text, lo, n) is None,
    decreases n - k,
{
    if k < n {
        lemma_program_fails(q, text, lo, k, (n - 1) as nat);
    }
}

} // verus!
