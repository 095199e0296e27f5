//! Refinement: the canonical form of an expression.
//!
//! A choice takes the branches of an untagged, unmarked choice among its
//! branches as its own, and a sequence the terms of such a sequence among
//! its terms. A choice or sequence of one member gives way to that member
//! where it carries no tag and no mark. Operators on an untagged, unmarked
//! expression under operators are joined into one row, in which an operator
//! that changes nothing when applied twice stands only once in a row.

use crate::ir::expression::{
    copy_operators, lemma_node_views, lemma_node_views_push, node_view, node_views, same_operator,
    ChoiceExpression, ConcatExpression, ExpressionKind, ExpressionNode, FunctionExpression,
    KindView, NodeView, Operator, UnaryExpression,
};
use vstd::prelude::*;

verus! {

/// True when applying `op` twice in a row is the same as applying it once.
pub open spec fn is_idempotent(op: Operator) -> bool {
    op == Operator::Optional || op == Operator::Repeats || op == Operator::Repeat1 || op
        == Operator::Positive || op == Operator::Boxing || op == Operator::Remark
}

/// True when `n` carries neither a tag nor a mark.
pub open spec fn is_plain(n: NodeView) -> bool {
    n.tag.len() == 0 && !n.remark
}

/// True when `n` is a plain choice (for `choice`) or a plain sequence.
pub open spec fn is_absorbed(choice: bool, n: NodeView) -> bool {
    is_plain(n) && if choice {
        n.kind is Choice
    } else {
        n.kind is Concat
    }
}

/// The members of a choice or sequence.
pub open spec fn members(n: NodeView) -> Seq<NodeView> {
    match n.kind {
        KindView::Choice { branches } => branches,
        KindView::Concat { terms } => terms,
        _ => Seq::<NodeView>::empty(),
    }
}

/// What a refined member `n` adds to the choice or sequence around it: its
/// own members where it is absorbed, and else itself.
pub open spec fn piece(choice: bool, n: NodeView) -> Seq<NodeView> {
    if is_absorbed(choice, n) {
        members(n)
    } else {
        seq![n]
    }
}

/// `ops` with every run of one idempotent operator cut down to one.
pub open spec fn collapsed(ops: Seq<Operator>) -> Seq<Operator>
    decreases ops.len(),
{
    if ops.len() == 0 {
        Seq::<Operator>::empty()
    } else {
        let rest = collapsed(ops.drop_last());
        if rest.len() > 0 && rest.last() == ops.last() && is_idempotent(ops.last()) {
            rest
        } else {
            rest.push(ops.last())
        }
    }
}

/// The refined members of the first `n` members of `s`.
pub open spec fn refined_members(choice: bool, s: Seq<NodeView>, n: nat) -> Seq<NodeView>
    decreases s, n,
{
    if n == 0 || n > s.len() {
        Seq::<NodeView>::empty()
    } else {
        refined_members(choice, s, (n - 1) as nat) + piece(choice, refined(s[n - 1]))
    }
}

/// The first `n` members of `s`, each refined.
pub open spec fn refined_each(s: Seq<NodeView>, n: nat) -> Seq<NodeView>
    decreases s, n,
{
    if n == 0 || n > s.len() {
        Seq::<NodeView>::empty()
    } else {
        refined_each(s, (n - 1) as nat).push(refined(s[n - 1]))
    }
}

/// A choice or sequence of `list` with the tag and mark of `n`, or the one
/// member of `list` where `n` is plain.
pub open spec fn hoisted(choice: bool, n: NodeView, list: Seq<NodeView>) -> NodeView {
    if list.len() == 1 && is_plain(n) {
        list[0]
    } else {
        NodeView {
            kind: if choice {
                KindView::Choice { branches: list }
            } else {
                KindView::Concat { terms: list }
            },
            tag: n.tag,
            remark: n.remark,
        }
    }
}

/// True when `n` is a plain expression under operators.
pub open spec fn is_plain_unary(n: NodeView) -> bool {
    is_plain(n) && n.kind is Unary
}

/// The base that an expression under operators has after refinement, given
/// its refined base `b`.
pub open spec fn joined_base(b: NodeView) -> NodeView {
    if is_plain_unary(b) {
        *b.kind->Unary_base
    } else {
        b
    }
}

/// The operators that an expression under `ops` has after refinement, given
/// its refined base `b`.
pub open spec fn joined_ops(b: NodeView, ops: Seq<Operator>) -> Seq<Operator> {
    if is_plain_unary(b) {
        collapsed(b.kind->Unary_ops + ops)
    } else {
        collapsed(ops)
    }
}

/// `base` under `ops` with the tag and mark of `n`, or `base` itself where
/// `ops` is empty and `n` is plain.
pub open spec fn lifted(n: NodeView, base: NodeView, ops: Seq<Operator>) -> NodeView {
    if ops.len() == 0 && is_plain(n) {
        base
    } else {
        NodeView { kind: KindView::Unary { base: Box::new(base), ops }, tag: n.tag, remark: n.remark }
    }
}

/// The canonical form of `n`.
pub open spec fn refined(n: NodeView) -> NodeView
    decreases n,
{
    match n.kind {
        KindView::Choice { branches } => hoisted(
            true,
            n,
            refined_members(true, branches, branches.len()),
        ),
        KindView::Concat { terms } => hoisted(false, n, refined_members(false, terms, terms.len())),
        KindView::Unary { base, ops } => {
            let b = refined(*base);
            lifted(n, joined_base(b), joined_ops(b, ops))
        },
        KindView::Function { name, args } => NodeView {
            kind: KindView::Function { name, args: refined_each(args, args.len()) },
            tag: n.tag,
            remark: n.remark,
        },
        KindView::Rule { .. } => n,
        KindView::Data { .. } => n,
    }
}

/// True when no idempotent operator stands twice in a row in `ops`.
pub open spec fn no_repeats(ops: Seq<Operator>) -> bool {
    forall|i: int|
        0 < i < ops.len() ==> !(#[trigger] ops[i] == ops[i - 1] && is_idempotent(ops[i]))
}

/// True when every member of `s` is in canonical form and none would be
/// absorbed by a choice (for `choice`) or sequence around it.
pub open spec fn members_canonical(choice: bool, s: Seq<NodeView>, n: nat) -> bool
    decreases s, n,
{
    if n == 0 || n > s.len() {
        true
    } else {
        &&& members_canonical(choice, s, (n - 1) as nat)
        &&& is_canonical(s[n - 1])
        &&& !is_absorbed(choice, s[n - 1])
    }
}

/// True when every one of the first `n` members of `s` is in canonical form.
pub open spec fn each_canonical(s: Seq<NodeView>, n: nat) -> bool
    decreases s, n,
{
    if n == 0 || n > s.len() {
        true
    } else {
        each_canonical(s, (n - 1) as nat) && is_canonical(s[n - 1])
    }
}

/// True when `n` is in canonical form.
pub open spec fn is_canonical(n: NodeView) -> bool
    decreases n,
{
    match n.kind {
        KindView::Choice { branches } => members_canonical(true, branches, branches.len()) && !(
        branches.len() == 1 && is_plain(n)),
        KindView::Concat { terms } => members_canonical(false, terms, terms.len()) && !(terms.len()
            == 1 && is_plain(n)),
        KindView::Unary { base, ops } => {
            &&& is_canonical(*base)
            &&& !is_plain_unary(*base)
            &&& no_repeats(ops)
            &&& !(ops.len() == 0 && is_plain(n))
        },
        KindView::Function { name, args } => each_canonical(args, args.len()),
        KindView::Rule { .. } => true,
        KindView::Data { .. } => true,
    }
}

/// A collapsed row has no repeats, and its last operator is the last of the
/// row that was collapsed.
pub proof fn lemma_collapsed_no_repeats(ops: Seq<Operator>)
    ensures
        no_repeats(collapsed(ops)),
        ops.len() > 0 ==> collapsed(ops).len() > 0 && collapsed(ops).last() == ops.last(),
        ops.len() == 0 ==> collapsed(ops).len() == 0,
    decreases ops.len(),
{
    if ops.len() > 0 {
        lemma_collapsed_no_repeats(ops.drop_last());
    }
}

/// A row without repeats is its own collapsed row.
pub proof fn lemma_collapsed_fixed(ops: Seq<Operator>)
    requires
        no_repeats(ops),
    ensures
        collapsed(ops) == ops,
    decreases ops.len(),
{
    if ops.len() > 0 {
        let front = ops.drop_last();
        assert forall|i: int| 0 < i < front.len() implies !(#[trigger] front[i] == front[i - 1]
            && is_idempotent(front[i])) by {
            assert(front[i] == ops[i]);
            assert(front[i - 1] == ops[i - 1]);
        }
        lemma_collapsed_fixed(front);
        if front.len() > 0 {
            let i = ops.len() - 1;
            assert(!(ops[i] == ops[i - 1] && is_idempotent(ops[i])));
            assert(front.last() == ops[i - 1]);
        }
        assert(front.push(ops.last()) =~= ops);
    }
}

/// Every member of a canonical choice or sequence beyond the first `n` is
/// canonical too.
proof fn lemma_members_canonical_at(choice: bool, s: Seq<NodeView>, n: nat, k: int)
    requires
        members_canonical(choice, s, n),
        n <= s.len(),
        0 <= k < n,
    ensures
        is_canonical(s[k]),
        !is_absorbed(choice, s[k]),
    decreases n,
{
    if k < n - 1 {
        lemma_members_canonical_at(choice, s, (n - 1) as nat, k);
    }
}

/// The members of a canonical choice or sequence are canonical.
proof fn lemma_members_of_canonical(choice: bool, n: NodeView)
    requires
        is_canonical(n),
        is_absorbed(choice, n),
    ensures
        members_canonical(choice, members(n), members(n).len()),
{
}

/// Members that are canonical up to `a` in one row and up to `b` in another
/// are canonical in the two rows joined.
proof fn lemma_members_canonical_concat(choice: bool, x: Seq<NodeView>, y: Seq<NodeView>, m: nat)
    requires
        members_canonical(choice, x, x.len()),
        members_canonical(choice, y, y.len()),
        m <= x.len() + y.len(),
    ensures
        members_canonical(choice, x + y, m),
    decreases m,
{
    if m > 0 {
        lemma_members_canonical_concat(choice, x, y, (m - 1) as nat);
        let k = m - 1;
        if k < x.len() {
            lemma_members_canonical_at(choice, x, x.len(), k);
            assert((x + y)[k] == x[k]);
        } else {
            lemma_members_canonical_at(choice, y, y.len(), k - x.len());
            assert((x + y)[k] == y[k - x.len()]);
        }
    }
}

/// The refined members of a row are canonical, and none of them would be
/// absorbed.
proof fn lemma_refined_members_canonical(choice: bool, s: Seq<NodeView>, n: nat)
    requires
        n <= s.len(),
    ensures
        members_canonical(
            choice,
            refined_members(choice, s, n),
            refined_members(choice, s, n).len(),
        ),
    decreases s, n, 0nat,
{
    if n > 0 {
        lemma_refined_members_canonical(choice, s, (n - 1) as nat);
        let r = refined(s[n - 1]);
        lemma_refined_canonical(s[n - 1]);
        let p = piece(choice, r);
        if is_absorbed(choice, r) {
            lemma_members_of_canonical(choice, r);
        } else {
            assert(members_canonical(choice, p, 0));
        }
        lemma_members_canonical_concat(
            choice,
            refined_members(choice, s, (n - 1) as nat),
            p,
            (refined_members(choice, s, (n - 1) as nat) + p).len(),
        );
    }
}

/// Each of the first members of a row, refined, is canonical.
proof fn lemma_refined_each_canonical(s: Seq<NodeView>, n: nat)
    requires
        n <= s.len(),
    ensures
        each_canonical(refined_each(s, n), refined_each(s, n).len()),
        refined_each(s, n).len() == n,
    decreases s, n, 0nat,
{
    if n > 0 {
        lemma_refined_each_canonical(s, (n - 1) as nat);
        lemma_refined_canonical(s[n - 1]);
        let front = refined_each(s, (n - 1) as nat);
        let all = refined_each(s, n);
        lemma_each_canonical_frame(front, all, (n - 1) as nat);
    }
}

/// Whether each of the first members of a row is canonical depends on them
/// only.
proof fn lemma_each_canonical_frame(x: Seq<NodeView>, y: Seq<NodeView>, m: nat)
    requires
        m <= x.len(),
        m <= y.len(),
        forall|k: int| 0 <= k < m ==> x[k] == y[k],
        each_canonical(x, m),
    ensures
        each_canonical(y, m),
    decreases m,
{
    if m > 0 {
        lemma_each_canonical_frame(x, y, (m - 1) as nat);
    }
}

/// The canonical form is canonical.
pub proof fn lemma_refined_canonical(n: NodeView)
    ensures
        is_canonical(refined(n)),
    decreases n, 0nat, 1nat,
{
    match n.kind {
        KindView::Choice { branches } => {
            lemma_refined_members_canonical(true, branches, branches.len());
            let list = refined_members(true, branches, branches.len());
            if list.len() == 1 && is_plain(n) {
                lemma_members_canonical_at(true, list, list.len(), 0);
            }
        },
        KindView::Concat { terms } => {
            lemma_refined_members_canonical(false, terms, terms.len());
            let list = refined_members(false, terms, terms.len());
            if list.len() == 1 && is_plain(n) {
                lemma_members_canonical_at(false, list, list.len(), 0);
            }
        },
        KindView::Unary { base, ops } => {
            let b = refined(*base);
            lemma_refined_canonical(*base);
            if is_plain_unary(b) {
                lemma_collapsed_no_repeats(b.kind->Unary_ops + ops);
            } else {
                lemma_collapsed_no_repeats(ops);
            }
        },
        KindView::Function { name, args } => {
            lemma_refined_each_canonical(args, args.len());
        },
        KindView::Rule { .. } => {},
        KindView::Data { .. } => {},
    }
}

/// The refined members of canonical members are those members.
proof fn lemma_refined_members_fixed(choice: bool, s: Seq<NodeView>, n: nat)
    requires
        n <= s.len(),
        members_canonical(choice, s, n),
    ensures
        refined_members(choice, s, n) == s.take(n as int),
    decreases s, n, 0nat,
{
    if n > 0 {
        lemma_refined_members_fixed(choice, s, (n - 1) as nat);
        lemma_refined_fixed(s[n - 1]);
        assert(s.take(n as int) =~= s.take(n - 1) + seq![s[n - 1]]);
    } else {
        assert(s.take(0) =~= Seq::<NodeView>::empty());
    }
}

/// Canonical members, each refined, are those members.
proof fn lemma_refined_each_fixed(s: Seq<NodeView>, n: nat)
    requires
        n <= s.len(),
        each_canonical(s, n),
    ensures
        refined_each(s, n) == s.take(n as int),
    decreases s, n, 0nat,
{
    if n > 0 {
        lemma_refined_each_fixed(s, (n - 1) as nat);
        lemma_refined_fixed(s[n - 1]);
        assert(s.take(n as int) =~= s.take(n - 1).push(s[n - 1]));
    } else {
        assert(s.take(0) =~= Seq::<NodeView>::empty());
    }
}

/// A canonical expression is its own canonical form.
pub proof fn lemma_refined_fixed(n: NodeView)
    requires
        is_canonical(n),
    ensures
        refined(n) == n,
    decreases n, 0nat, 1nat,
{
    match n.kind {
        KindView::Choice { branches } => {
            lemma_refined_members_fixed(true, branches, branches.len());
            assert(branches.take(branches.len() as int) =~= branches);
        },
        KindView::Concat { terms } => {
            lemma_refined_members_fixed(false, terms, terms.len());
            assert(terms.take(terms.len() as int) =~= terms);
        },
        KindView::Unary { base, ops } => {
            lemma_refined_fixed(*base);
            lemma_collapsed_fixed(ops);
        },
        KindView::Function { name, args } => {
            lemma_refined_each_fixed(args, args.len());
            assert(args.take(args.len() as int) =~= args);
        },
        KindView::Rule { .. } => {},
        KindView::Data { .. } => {},
    }
}

/// Refining twice gives what refining once gives.
pub proof fn lemma_refine_idempotent(n: NodeView)
    ensures
        refined(refined(n)) == refined(n),
{
    lemma_refined_canonical(n);
    lemma_refined_fixed(refined(n));
}

/// The models of two rows joined are the models of the rows, joined.
pub proof fn lemma_node_views_concat(a: Seq<ExpressionNode>, b: Seq<ExpressionNode>)
    ensures
        node_views(a + b) == node_views(a) + node_views(b),
{
    lemma_node_views(a);
    lemma_node_views(b);
    lemma_node_views(a + b);
    assert(node_views(a + b) =~= node_views(a) + node_views(b));
}

/// True when applying `op` twice in a row is the same as applying it once.
pub fn idempotent(op: Operator) -> (b: bool)
    ensures
        b == is_idempotent(op),
{
    match op {
        Operator::Optional => true,
        Operator::Repeats => true,
        Operator::Repeat1 => true,
        Operator::Positive => true,
        Operator::Boxing => true,
        Operator::Remark => true,
        _ => false,
    }
}

/// `ops` with every run of one idempotent operator cut down to one.
pub fn collapse(ops: &Vec<Operator>) -> (out: Vec<Operator>)
    ensures
        out@ == collapsed(ops@),
{
    let mut out: Vec<Operator> = Vec::new();
    let mut i: usize = 0;
    proof {
        assert(ops@.take(0) =~= Seq::<Operator>::empty());
    }
    while i < ops.len()
        invariant
            i <= ops.len(),
            out@ == collapsed(ops@.take(i as int)),
        decreases ops.len() - i,
    {
        let op = ops[i];
        proof {
            let t = ops@.take(i + 1);
            assert(t.drop_last() =~= ops@.take(i as int));
            assert(t.last() == op);
        }
        let n = out.len();
        if n > 0 && same_operator(out[n - 1], op) && idempotent(op) {
        } else {
            out.push(op);
        }
        i = i + 1;
    }
    proof {
        assert(ops@.take(ops.len() as int) =~= ops@);
    }
    out
}

/// True when `e` carries neither a tag nor a mark.
pub fn plain(e: &ExpressionNode) -> (b: bool)
    ensures
        b == is_plain(e@),
{
    e.tag.as_str().is_empty() && !e.remark
}

/// True when `e` is a plain choice (for `choice`) or a plain sequence.
fn absorbed(choice: bool, e: &ExpressionNode) -> (b: bool)
    ensures
        b == is_absorbed(choice, e@),
{
    let kind_fits = match &e.kind {
        ExpressionKind::Choice(_) => choice,
        ExpressionKind::Concat(_) => !choice,
        _ => false,
    };
    plain(e) && kind_fits
}

/// The members of a choice or sequence, and no members of anything else.
fn into_members(e: ExpressionNode) -> (out: Vec<ExpressionNode>)
    ensures
        node_views(out@) == members(e@),
{
    match e.kind {
        ExpressionKind::Choice(c) => {
            let c = *c;
            c.branches
        },
        ExpressionKind::Concat(c) => {
            let c = *c;
            c.terms
        },
        _ => {
            let out: Vec<ExpressionNode> = Vec::new();
            proof {
                lemma_node_views(out@);
                assert(node_views(out@) =~= Seq::<NodeView>::empty());
            }
            out
        },
    }
}

/// The refined members of a choice (for `choice`) or sequence of `nodes`.
fn refine_members(choice: bool, nodes: &Vec<ExpressionNode>) -> (out: Vec<ExpressionNode>)
    ensures
        node_views(out@) == refined_members(choice, node_views(nodes@), nodes@.len()),
    decreases nodes@,
{
    let mut out: Vec<ExpressionNode> = Vec::new();
    let mut i: usize = 0;
    let ghost all = node_views(nodes@);
    proof {
        lemma_node_views(nodes@);
        lemma_node_views(out@);
        assert(node_views(out@) =~= Seq::<NodeView>::empty());
    }
    while i < nodes.len()
        invariant
            i <= nodes.len(),
            all == node_views(nodes@),
            all.len() == nodes.len(),
            forall|k: int| 0 <= k < nodes.len() ==> (#[trigger] all[k]) == node_view(nodes@[k]),
            node_views(out@) == refined_members(choice, all, i as nat),
        decreases nodes.len() - i,
    {
        let r = refine(&nodes[i]);
        assert(r@ == refined(all[i as int]));
        let ghost before = out@;
        if absorbed(choice, &r) {
            let ghost rv = r@;
            let mut kids = into_members(r);
            proof {
                lemma_node_views_concat(before, kids@);
            }
            out.append(&mut kids);
        } else {
            proof {
                lemma_node_views_push(before, r);
                assert(node_views(before).push(r@) =~= node_views(before) + seq![r@]);
            }
            out.push(r);
        }
        i = i + 1;
    }
    out
}

/// The members of `nodes`, each refined.
fn refine_each(nodes: &Vec<ExpressionNode>) -> (out: Vec<ExpressionNode>)
    ensures
        node_views(out@) == refined_each(node_views(nodes@), nodes@.len()),
    decreases nodes@,
{
    let mut out: Vec<ExpressionNode> = Vec::new();
    let mut i: usize = 0;
    let ghost all = node_views(nodes@);
    proof {
        lemma_node_views(nodes@);
        lemma_node_views(out@);
        assert(node_views(out@) =~= Seq::<NodeView>::empty());
    }
    while i < nodes.len()
        invariant
            i <= nodes.len(),
            all == node_views(nodes@),
            all.len() == nodes.len(),
            forall|k: int| 0 <= k < nodes.len() ==> (#[trigger] all[k]) == node_view(nodes@[k]),
            node_views(out@) == refined_each(all, i as nat),
        decreases nodes.len() - i,
    {
        let r = refine(&nodes[i]);
        assert(r@ == refined(all[i as int]));
        proof {
            lemma_node_views_push(out@, r);
        }
        out.push(r);
        i = i + 1;
    }
    out
}

/// The canonical form of `e`: see the head of this file.
pub fn refine(e: &ExpressionNode) -> (r: ExpressionNode)
    ensures
        r@ == refined(e@),
        is_canonical(r@),
    decreases *e,
{
    proof {
        lemma_refined_canonical(e@);
    }
    match &e.kind {
        ExpressionKind::Choice(c) => {
            proof {
                lemma_node_views(c.branches@);
            }
            let mut list = refine_members(true, &c.branches);
            proof {
                lemma_node_views(list@);
            }
            if list.len() == 1 && plain(e) {
                match list.pop() {
                    Some(only) => only,
                    None => e.duplicate(),
                }
            } else {
                ExpressionNode {
                    kind: ExpressionKind::Choice(Box::new(ChoiceExpression { branches: list })),
                    tag: e.tag.clone(),
                    remark: e.remark,
                }
            }
        },
        ExpressionKind::Concat(c) => {
            proof {
                lemma_node_views(c.terms@);
            }
            let mut list = refine_members(false, &c.terms);
            proof {
                lemma_node_views(list@);
            }
            if list.len() == 1 && plain(e) {
                match list.pop() {
                    Some(only) => only,
                    None => e.duplicate(),
                }
            } else {
                ExpressionNode {
                    kind: ExpressionKind::Concat(Box::new(ConcatExpression { terms: list })),
                    tag: e.tag.clone(),
                    remark: e.remark,
                }
            }
        },
        ExpressionKind::Unary(u) => {
            let b = refine(&u.base);
            let b_plain = plain(&b);
            let ExpressionNode { kind, tag, remark } = b;
            let (base, ops) = match kind {
                ExpressionKind::Unary(inner) => {
                    if b_plain {
                        let UnaryExpression { base: inner_base, ops: inner_ops } = *inner;
                        let mut all = inner_ops;
                        let mut more = copy_operators(&u.ops);
                        all.append(&mut more);
                        (inner_base, collapse(&all))
                    } else {
                        (
                            ExpressionNode { kind: ExpressionKind::Unary(inner), tag, remark },
                            collapse(&u.ops),
                        )
                    }
                },
                other => (ExpressionNode { kind: other, tag, remark }, collapse(&u.ops)),
            };
            if ops.len() == 0 && plain(e) {
                base
            } else {
                ExpressionNode {
                    kind: ExpressionKind::Unary(Box::new(UnaryExpression { base, ops })),
                    tag: e.tag.clone(),
                    remark: e.remark,
                }
            }
        },
        ExpressionKind::Function(f) => {
            proof {
                lemma_node_views(f.args@);
            }
            let args = refine_each(&f.args);
            ExpressionNode {
                kind: ExpressionKind::Function(
                    Box::new(FunctionExpression { name: f.name.clone(), args }),
                ),
                tag: e.tag.clone(),
                remark: e.remark,
            }
        },
        ExpressionKind::Rule(_) => e.duplicate(),
        ExpressionKind::Data(_) => e.duplicate(),
    }
}

} // verus!
