//! What a pass has rewritten, it leaves as it is.
//!
//! An expression is settled for a pass when the pass leaves it as it is.
//! Every pass rewrites an expression from its leaves up, so what it hands
//! back is settled as soon as its local rule settles an expression whose
//! parts are settled.

use crate::ir::expression::{KindView, NodeView, Operator};
use crate::optimize::analysis::{any_refers, refers};
use crate::optimize::pass::{
    fused_ops, is_plain_class, is_plain_text, joined_classes, joined_texts, local, position_of,
    rewritten, rewritten_each, spaced, with_parts_rewritten, PassView,
};
use vstd::prelude::*;

verus! {

/// True when the pass leaves `n` as it is.
pub open spec fn is_settled(p: PassView, n: NodeView) -> bool {
    rewritten(p, n) == n
}

/// True when the pass leaves each of the first `k` of `s` as it is.
pub open spec fn all_settled(p: PassView, s: Seq<NodeView>, k: nat) -> bool
    decreases k,
{
    if k == 0 || k > s.len() {
        true
    } else {
        all_settled(p, s, (k - 1) as nat) && is_settled(p, s[k - 1])
    }
}

/// True when the pass leaves the parts of `n` as they are.
pub open spec fn parts_settled(p: PassView, n: NodeView) -> bool {
    match n.kind {
        KindView::Choice { branches } => all_settled(p, branches, branches.len()),
        KindView::Concat { terms } => all_settled(p, terms, terms.len()),
        KindView::Unary { base, .. } => is_settled(p, *base),
        KindView::Function { args, .. } => all_settled(p, args, args.len()),
        KindView::Rule { .. } => true,
        KindView::Data { .. } => true,
    }
}

/// True when the local rule of the pass settles every expression whose
/// parts are settled.
pub open spec fn local_settles(p: PassView) -> bool {
    forall|m: NodeView| parts_settled(p, m) ==> #[trigger] is_settled(p, local(p, m))
}

/// Each of the first members that are settled is settled.
pub proof fn lemma_all_settled_at(p: PassView, s: Seq<NodeView>, k: nat, i: int)
    requires
        all_settled(p, s, k),
        k <= s.len(),
        0 <= i < k,
    ensures
        is_settled(p, s[i]),
    decreases k,
{
    if i < k - 1 {
        lemma_all_settled_at(p, s, (k - 1) as nat, i);
    }
}

/// Members that are settled one by one are settled together.
pub proof fn lemma_all_settled_from(p: PassView, s: Seq<NodeView>, k: nat)
    requires
        k <= s.len(),
        forall|i: int| 0 <= i < k ==> is_settled(p, #[trigger] s[i]),
    ensures
        all_settled(p, s, k),
    decreases k,
{
    if k > 0 {
        lemma_all_settled_from(p, s, (k - 1) as nat);
    }
}

/// Rewriting settled members gives the members.
pub proof fn lemma_rewritten_each_fixed(p: PassView, s: Seq<NodeView>, k: nat)
    requires
        k <= s.len(),
        all_settled(p, s, k),
    ensures
        rewritten_each(p, s, k) == s.take(k as int),
    decreases k,
{
    if k > 0 {
        lemma_rewritten_each_fixed(p, s, (k - 1) as nat);
        assert(s.take(k as int) =~= s.take(k - 1).push(s[k - 1]));
    } else {
        assert(s.take(0) =~= Seq::<NodeView>::empty());
    }
}

/// An expression whose parts are settled is what it is with its parts
/// rewritten.
pub proof fn lemma_parts_fixed(p: PassView, m: NodeView)
    requires
        parts_settled(p, m),
    ensures
        with_parts_rewritten(p, m) == m,
{
    match m.kind {
        KindView::Choice { branches } => {
            lemma_rewritten_each_fixed(p, branches, branches.len());
            assert(branches.take(branches.len() as int) =~= branches);
        },
        KindView::Concat { terms } => {
            lemma_rewritten_each_fixed(p, terms, terms.len());
            assert(terms.take(terms.len() as int) =~= terms);
        },
        KindView::Unary { base, ops } => {},
        KindView::Function { name, args } => {
            lemma_rewritten_each_fixed(p, args, args.len());
            assert(args.take(args.len() as int) =~= args);
        },
        KindView::Rule { .. } => {},
        KindView::Data { .. } => {},
    }
}

/// The members that a pass has rewritten are settled.
proof fn lemma_rewritten_each_settled(p: PassView, s: Seq<NodeView>, k: nat)
    requires
        local_settles(p),
        k <= s.len(),
    ensures
        rewritten_each(p, s, k).len() == k,
        all_settled(p, rewritten_each(p, s, k), k),
    decreases s, k, 0nat,
{
    if k > 0 {
        lemma_rewritten_each_settled(p, s, (k - 1) as nat);
        lemma_rewritten_settled(p, s[k - 1]);
        let front = rewritten_each(p, s, (k - 1) as nat);
        let all = rewritten_each(p, s, k);
        assert forall|i: int| 0 <= i < k implies is_settled(p, #[trigger] all[i]) by {
            if i < k - 1 {
                lemma_all_settled_at(p, front, (k - 1) as nat, i);
                assert(all[i] == front[i]);
            }
        }
        lemma_all_settled_from(p, all, k);
    }
}

/// What a pass has rewritten is settled: rewriting it again changes
/// nothing. This holds of every pass whose local rule settles what has
/// settled parts.
pub proof fn lemma_rewritten_settled(p: PassView, n: NodeView)
    requires
        local_settles(p),
    ensures
        rewritten(p, rewritten(p, n)) == rewritten(p, n),
    decreases n, 0nat, 1nat,
{
    let m = with_parts_rewritten(p, n);
    match n.kind {
        KindView::Choice { branches } => {
            lemma_rewritten_each_settled(p, branches, branches.len());
        },
        KindView::Concat { terms } => {
            lemma_rewritten_each_settled(p, terms, terms.len());
        },
        KindView::Unary { base, ops } => {
            lemma_rewritten_settled(p, *base);
        },
        KindView::Function { name, args } => {
            lemma_rewritten_each_settled(p, args, args.len());
        },
        KindView::Rule { .. } => {},
        KindView::Data { .. } => {},
    }
    assert(parts_settled(p, m));
    assert(is_settled(p, local(p, m)));
}

/// The local rule that takes tags away settles what has settled parts.
pub proof fn lemma_remark_settles(unmarked: bool, unnamed: bool)
    ensures
        local_settles(PassView::Remark { unmarked, unnamed }),
{
    let p = PassView::Remark { unmarked, unnamed };
    assert forall|m: NodeView| parts_settled(p, m) implies #[trigger] is_settled(
        p,
        local(p, m),
    ) by {
        let r = local(p, m);
        assert(r.kind == m.kind);
        assert(parts_settled(p, r));
        lemma_parts_fixed(p, r);
    }
}

/// The local rule that lowers built-in functions settles what has settled
/// parts.
pub proof fn lemma_emit_settles()
    ensures
        local_settles(PassView::Emit),
{
    let p = PassView::Emit;
    assert forall|m: NodeView| parts_settled(p, m) implies #[trigger] is_settled(
        p,
        local(p, m),
    ) by {
        let r = local(p, m);
        if r == m {
            lemma_parts_fixed(p, m);
        } else {
            assert(r.kind is Data || r.kind is Rule);
            assert(parts_settled(p, r));
            lemma_parts_fixed(p, r);
        }
    }
}

/// True when no two texts follow one another among the first `k` of `s`.
pub open spec fn texts_apart(s: Seq<NodeView>, k: nat) -> bool {
    forall|i: int| 0 < i < k && i < s.len() ==> !(is_plain_text(#[trigger] s[i]) && is_plain_text(s[i - 1]))
}

/// Joined texts hold texts that are apart, and members that are members of
/// the row or joined texts.
proof fn lemma_joined_texts(p: PassView, s: Seq<NodeView>, k: nat)
    requires
        k <= s.len(),
        all_settled(p, s, k),
        p is Fuse,
    ensures
        texts_apart(joined_texts(s, k), joined_texts(s, k).len()),
        all_settled(p, joined_texts(s, k), joined_texts(s, k).len()),
        k > 0 ==> joined_texts(s, k).len() > 0 && (is_plain_text(joined_texts(s, k).last())
            <==> is_plain_text(s[k - 1])),
    decreases k,
{
    if k > 0 {
        lemma_joined_texts(p, s, (k - 1) as nat);
        let r = joined_texts(s, (k - 1) as nat);
        let x = s[k - 1];
        let j = joined_texts(s, k);
        lemma_all_settled_at(p, s, k, k - 1);
        assert forall|i: int| 0 <= i < j.len() implies is_settled(p, #[trigger] j[i]) by {
            if r.len() > 0 && is_plain_text(r.last()) && is_plain_text(x) {
                if i < j.len() - 1 {
                    lemma_all_settled_at(p, r, r.len(), i);
                    assert(j[i] == r[i]);
                } else {
                    lemma_parts_fixed(p, j[i]);
                }
            } else {
                if i < r.len() {
                    lemma_all_settled_at(p, r, r.len(), i);
                    assert(j[i] == r[i]);
                }
            }
        }
        lemma_all_settled_from(p, j, j.len());
        assert forall|i: int| 0 < i < j.len() implies !(is_plain_text(#[trigger] j[i])
            && is_plain_text(j[i - 1])) by {
            if r.len() > 0 && is_plain_text(r.last()) && is_plain_text(x) {
                if i < j.len() - 1 {
                    assert(j[i] == r[i] && j[i - 1] == r[i - 1]);
                } else {
                    assert(j[i - 1] == r[i - 1]);
                    assert(!(is_plain_text(r[i]) && is_plain_text(r[i - 1])));
                }
            } else {
                if i < r.len() {
                    assert(j[i] == r[i] && j[i - 1] == r[i - 1]);
                } else {
                    assert(j[i - 1] == r.last());
                }
            }
        }
    }
}

/// Texts that are apart stay as they are when texts are joined.
proof fn lemma_joined_texts_fixed(s: Seq<NodeView>, k: nat)
    requires
        k <= s.len(),
        texts_apart(s, k),
    ensures
        joined_texts(s, k) == s.take(k as int),
    decreases k,
{
    if k > 0 {
        lemma_joined_texts_fixed(s, (k - 1) as nat);
        let r = joined_texts(s, (k - 1) as nat);
        if k > 1 {
            assert(r.last() == s[k - 2]);
            assert(!(is_plain_text(s[k - 1]) && is_plain_text(s[k - 2])));
        }
        assert(s.take(k as int) =~= s.take(k - 1).push(s[k - 1]));
    } else {
        assert(s.take(0) =~= Seq::<NodeView>::empty());
    }
}

/// True when no two classes follow one another among the first `k` of `s`.
pub open spec fn classes_apart(s: Seq<NodeView>, k: nat) -> bool {
    forall|i: int| 0 < i < k && i < s.len() ==> !(is_plain_class(#[trigger] s[i]) && is_plain_class(s[i - 1]))
}

/// Joined classes hold classes that are apart, and members that are
/// settled.
proof fn lemma_joined_classes(p: PassView, s: Seq<NodeView>, k: nat)
    requires
        k <= s.len(),
        all_settled(p, s, k),
        p is Fuse,
    ensures
        classes_apart(joined_classes(s, k), joined_classes(s, k).len()),
        all_settled(p, joined_classes(s, k), joined_classes(s, k).len()),
        k > 0 ==> joined_classes(s, k).len() > 0 && (is_plain_class(joined_classes(s, k).last())
            <==> is_plain_class(s[k - 1])),
    decreases k,
{
    if k > 0 {
        lemma_joined_classes(p, s, (k - 1) as nat);
        let r = joined_classes(s, (k - 1) as nat);
        let x = s[k - 1];
        let j = joined_classes(s, k);
        lemma_all_settled_at(p, s, k, k - 1);
        assert forall|i: int| 0 <= i < j.len() implies is_settled(p, #[trigger] j[i]) by {
            if r.len() > 0 && is_plain_class(r.last()) && is_plain_class(x) {
                if i < j.len() - 1 {
                    lemma_all_settled_at(p, r, r.len(), i);
                    assert(j[i] == r[i]);
                } else {
                    lemma_parts_fixed(p, j[i]);
                }
            } else {
                if i < r.len() {
                    lemma_all_settled_at(p, r, r.len(), i);
                    assert(j[i] == r[i]);
                }
            }
        }
        lemma_all_settled_from(p, j, j.len());
        assert forall|i: int| 0 < i < j.len() implies !(is_plain_class(#[trigger] j[i])
            && is_plain_class(j[i - 1])) by {
            if r.len() > 0 && is_plain_class(r.last()) && is_plain_class(x) {
                if i < j.len() - 1 {
                    assert(j[i] == r[i] && j[i - 1] == r[i - 1]);
                } else {
                    assert(j[i - 1] == r[i - 1]);
                    assert(!(is_plain_class(r[i]) && is_plain_class(r[i - 1])));
                }
            } else {
                if i < r.len() {
                    assert(j[i] == r[i] && j[i - 1] == r[i - 1]);
                } else {
                    assert(j[i - 1] == r.last());
                }
            }
        }
    }
}

/// Classes that are apart stay as they are when classes are joined.
proof fn lemma_joined_classes_fixed(s: Seq<NodeView>, k: nat)
    requires
        k <= s.len(),
        classes_apart(s, k),
    ensures
        joined_classes(s, k) == s.take(k as int),
    decreases k,
{
    if k > 0 {
        lemma_joined_classes_fixed(s, (k - 1) as nat);
        let r = joined_classes(s, (k - 1) as nat);
        if k > 1 {
            assert(r.last() == s[k - 2]);
            assert(!(is_plain_class(s[k - 1]) && is_plain_class(s[k - 2])));
        }
        assert(s.take(k as int) =~= s.take(k - 1).push(s[k - 1]));
    } else {
        assert(s.take(0) =~= Seq::<NodeView>::empty());
    }
}

/// True when no option stands beside a repetition or another option in
/// `ops`.
pub open spec fn ops_fused(ops: Seq<Operator>) -> bool {
    forall|i: int|
        0 < i < ops.len() ==> !((#[trigger] ops[i] == Operator::Optional && (ops[i - 1]
            == Operator::Repeats || ops[i - 1] == Operator::Optional)) || (ops[i]
            == Operator::Repeats && ops[i - 1] == Operator::Optional))
}

/// Fused operators are fused.
proof fn lemma_fused_ops(ops: Seq<Operator>)
    ensures
        ops_fused(fused_ops(ops)),
    decreases ops.len(),
{
    if ops.len() > 0 {
        lemma_fused_ops(ops.drop_last());
        let r = fused_ops(ops.drop_last());
        let x = ops.last();
        let f = fused_ops(ops);
        assert forall|i: int| 0 < i < f.len() implies !((#[trigger] f[i] == Operator::Optional && (
        f[i - 1] == Operator::Repeats || f[i - 1] == Operator::Optional)) || (f[i]
            == Operator::Repeats && f[i - 1] == Operator::Optional)) by {
            if r.len() > 0 && x == Operator::Optional && (r.last() == Operator::Repeats || r.last()
                == Operator::Optional) {
            } else if r.len() > 0 && x == Operator::Repeats && r.last() == Operator::Optional {
                if i < f.len() - 1 {
                    assert(f[i] == r[i] && f[i - 1] == r[i - 1]);
                } else {
                    assert(f[i - 1] == r[i - 1]);
                    assert(r[i] == Operator::Optional);
                }
            } else {
                if i < r.len() {
                    assert(f[i] == r[i] && f[i - 1] == r[i - 1]);
                } else {
                    assert(f[i - 1] == r.last());
                }
            }
        }
    }
}

/// Operators that are fused stay as they are when they are fused.
proof fn lemma_fused_ops_fixed(ops: Seq<Operator>)
    requires
        ops_fused(ops),
    ensures
        fused_ops(ops) == ops,
    decreases ops.len(),
{
    if ops.len() > 0 {
        let front = ops.drop_last();
        assert forall|i: int| 0 < i < front.len() implies !((#[trigger] front[i]
            == Operator::Optional && (front[i - 1] == Operator::Repeats || front[i - 1]
            == Operator::Optional)) || (front[i] == Operator::Repeats && front[i - 1]
            == Operator::Optional)) by {
            assert(front[i] == ops[i] && front[i - 1] == ops[i - 1]);
        }
        lemma_fused_ops_fixed(front);
        if front.len() > 0 {
            let i = ops.len() - 1;
            assert(front.last() == ops[i - 1]);
            assert(!((ops[i] == Operator::Optional && (ops[i - 1] == Operator::Repeats || ops[i
                - 1] == Operator::Optional)) || (ops[i] == Operator::Repeats && ops[i - 1]
                == Operator::Optional)));
        }
        assert(front.push(ops.last()) =~= ops);
    }
}

/// The local rule of fusion settles what has settled parts.
pub proof fn lemma_fuse_settles(atomic: bool)
    ensures
        local_settles(PassView::Fuse { atomic }),
{
    let p = PassView::Fuse { atomic };
    assert forall|m: NodeView| parts_settled(p, m) implies #[trigger] is_settled(
        p,
        local(p, m),
    ) by {
        let r = local(p, m);
        match m.kind {
            KindView::Concat { terms } => {
                if atomic {
                    let j = joined_texts(terms, terms.len());
                    lemma_joined_texts(p, terms, terms.len());
                    lemma_parts_fixed(p, r);
                    lemma_joined_texts_fixed(j, j.len());
                    assert(j.take(j.len() as int) =~= j);
                } else {
                    lemma_parts_fixed(p, m);
                }
            },
            KindView::Choice { branches } => {
                let j = joined_classes(branches, branches.len());
                lemma_joined_classes(p, branches, branches.len());
                lemma_parts_fixed(p, r);
                lemma_joined_classes_fixed(j, j.len());
                assert(j.take(j.len() as int) =~= j);
            },
            KindView::Unary { base, ops } => {
                lemma_parts_fixed(p, r);
                lemma_fused_ops(ops);
                lemma_fused_ops_fixed(fused_ops(ops));
            },
            _ => {
                lemma_parts_fixed(p, m);
            },
        }
    }
}

/// True when of any two of the first `k` of `s` that follow one another,
/// one is `ignore`.
pub open spec fn is_spaced(s: Seq<NodeView>, ignore: NodeView, k: nat) -> bool {
    forall|i: int| 0 < i < k && i < s.len() ==> (#[trigger] s[i]) == ignore || s[i - 1] == ignore
}

/// A spaced sequence is spaced, and its members are members of the
/// sequence or `ignore`.
proof fn lemma_spaced(p: PassView, s: Seq<NodeView>, ignore: NodeView, k: nat)
    requires
        k <= s.len(),
        all_settled(p, s, k),
        is_settled(p, ignore),
    ensures
        is_spaced(spaced(s, ignore, k), ignore, spaced(s, ignore, k).len()),
        all_settled(p, spaced(s, ignore, k), spaced(s, ignore, k).len()),
        k > 0 ==> spaced(s, ignore, k).len() > 0 && spaced(s, ignore, k).last() == s[k - 1],
    decreases k,
{
    if k > 0 {
        lemma_spaced(p, s, ignore, (k - 1) as nat);
        let r = spaced(s, ignore, (k - 1) as nat);
        let x = s[k - 1];
        let j = spaced(s, ignore, k);
        lemma_all_settled_at(p, s, k, k - 1);
        assert forall|i: int| 0 <= i < j.len() implies is_settled(p, #[trigger] j[i]) by {
            if i < r.len() {
                lemma_all_settled_at(p, r, r.len(), i);
                assert(j[i] == r[i]);
            }
        }
        lemma_all_settled_from(p, j, j.len());
        assert forall|i: int| 0 < i < j.len() implies (#[trigger] j[i]) == ignore || j[i - 1]
            == ignore by {
            if i < r.len() {
                assert(j[i] == r[i] && j[i - 1] == r[i - 1]);
            } else if r.len() > 0 && r.last() != ignore && x != ignore {
                if i == r.len() {
                    assert(j[i] == ignore);
                } else {
                    assert(j[i - 1] == ignore);
                }
            } else {
                assert(j[i - 1] == r.last());
            }
        }
    }
}

/// A sequence that is spaced stays as it is when it is spaced.
proof fn lemma_spaced_fixed(s: Seq<NodeView>, ignore: NodeView, k: nat)
    requires
        k <= s.len(),
        is_spaced(s, ignore, k),
    ensures
        spaced(s, ignore, k) == s.take(k as int),
    decreases k,
{
    if k > 0 {
        lemma_spaced_fixed(s, ignore, (k - 1) as nat);
        let r = spaced(s, ignore, (k - 1) as nat);
        if k > 1 {
            assert(r.last() == s[k - 2]);
            assert(s[k - 1] == ignore || s[k - 2] == ignore);
        }
        assert(s.take(k as int) =~= s.take(k - 1).push(s[k - 1]));
    } else {
        assert(s.take(0) =~= Seq::<NodeView>::empty());
    }
}

/// The local rule that puts `ignore` between the terms of sequences
/// settles what has settled parts, where the pass leaves `ignore` itself as
/// it is.
pub proof fn lemma_ignore_settles(ignore: NodeView)
    requires
        is_settled(PassView::Ignore { ignore }, ignore),
    ensures
        local_settles(PassView::Ignore { ignore }),
{
    let p = PassView::Ignore { ignore };
    assert forall|m: NodeView| parts_settled(p, m) implies #[trigger] is_settled(
        p,
        local(p, m),
    ) by {
        let r = local(p, m);
        match m.kind {
            KindView::Concat { terms } => {
                let j = spaced(terms, ignore, terms.len());
                lemma_spaced(p, terms, ignore, terms.len());
                lemma_parts_fixed(p, r);
                lemma_spaced_fixed(j, ignore, j.len());
                assert(j.take(j.len() as int) =~= j);
            },
            _ => {
                lemma_parts_fixed(p, m);
            },
        }
    }
}

/// A name that is none of `names` has no place among them.
proof fn lemma_position_of_absent(names: Seq<Seq<char>>, name: Seq<char>, k: nat)
    requires
        !names.contains(name),
        k <= names.len(),
    ensures
        position_of(names, name, k) == names.len(),
    decreases names.len() - k,
{
    if k < names.len() {
        assert(names[k as int] != name);
        lemma_position_of_absent(names, name, k + 1);
    }
}

/// Members none of which refers to `names` are settled for inlining.
proof fn lemma_unreferring_all(p: PassView, names: Seq<Seq<char>>, s: Seq<NodeView>, k: nat)
    requires
        p is Inline,
        p->names == names,
        k <= s.len(),
        !any_refers(s, names, k),
    ensures
        all_settled(p, s, k),
    decreases s, k, 0nat,
{
    if k > 0 {
        lemma_unreferring_all(p, names, s, (k - 1) as nat);
        lemma_unreferring_settled(p, names, s[k - 1]);
    }
}

/// An expression that refers to none of the inlined rules is settled for
/// inlining.
pub proof fn lemma_unreferring_settled(p: PassView, names: Seq<Seq<char>>, n: NodeView)
    requires
        p is Inline,
        p->names == names,
        !refers(n, names),
    ensures
        is_settled(p, n),
    decreases n, 0nat, 1nat,
{
    match n.kind {
        KindView::Choice { branches } => {
            lemma_unreferring_all(p, names, branches, branches.len());
        },
        KindView::Concat { terms } => {
            lemma_unreferring_all(p, names, terms, terms.len());
        },
        KindView::Unary { base, ops } => {
            lemma_unreferring_settled(p, names, *base);
        },
        KindView::Function { name, args } => {
            lemma_unreferring_all(p, names, args, args.len());
        },
        KindView::Rule { name, boxed } => {
            lemma_position_of_absent(names, name, 0);
        },
        KindView::Data { .. } => {},
    }
    lemma_parts_fixed(p, n);
}

/// True when none of the bodies refers to one of the names.
pub open spec fn bodies_closed(names: Seq<Seq<char>>, bodies: Seq<NodeView>) -> bool {
    forall|i: int| 0 <= i < bodies.len() ==> !refers(#[trigger] bodies[i], names)
}

/// The local rule of inlining settles what has settled parts, where no
/// body of an inlined rule refers to an inlined rule.
pub proof fn lemma_inline_settles(names: Seq<Seq<char>>, bodies: Seq<NodeView>)
    requires
        bodies_closed(names, bodies),
    ensures
        local_settles(PassView::Inline { names, bodies }),
{
    let p = PassView::Inline { names, bodies };
    assert forall|m: NodeView| parts_settled(p, m) implies #[trigger] is_settled(
        p,
        local(p, m),
    ) by {
        let r = local(p, m);
        if r == m {
            lemma_parts_fixed(p, m);
            match m.kind {
                KindView::Rule { name, boxed } => {},
                _ => {},
            }
        } else {
            let at = position_of(names, m.kind->Rule_name, 0);
            let body = bodies[at as int];
            assert(!refers(body, names));
            assert(refers(r, names) == refers(body, names));
            lemma_unreferring_settled(p, names, r);
        }
    }
}

} // verus!
