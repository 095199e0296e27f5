//! What an expression refers to.

use crate::ir::expression::{
    lemma_node_views, node_view, node_views, ExpressionKind, ExpressionNode, KindView, NodeView,
};
use crate::ir::rule::{branch_views, BodyView, BranchView, GrammarBody, GrammarRule, RuleView, UnionBranch};
use crate::strings::same_text;
use crate::text::{char_at, lemma_ends_are_boundaries, lemma_offset_to_index};
use vstd::prelude::*;

verus! {

/// True when one of the first `k` of `s` refers to one of `names`.
pub open spec fn any_refers(s: Seq<NodeView>, names: Seq<Seq<char>>, k: nat) -> bool
    decreases s, k,
{
    if k == 0 || k > s.len() {
        false
    } else {
        any_refers(s, names, (k - 1) as nat) || refers(s[k - 1], names)
    }
}

/// True when `n` holds a reference to a rule of one of `names`.
pub open spec fn refers(n: NodeView, names: Seq<Seq<char>>) -> bool
    decreases n,
{
    match n.kind {
        KindView::Rule { name, .. } => names.contains(name),
        KindView::Choice { branches } => any_refers(branches, names, branches.len()),
        KindView::Concat { terms } => any_refers(terms, names, terms.len()),
        KindView::Unary { base, .. } => refers(*base, names),
        KindView::Function { args, .. } => any_refers(args, names, args.len()),
        KindView::Data { .. } => false,
    }
}

/// True when one of the first `k` branches refers to one of `names`.
pub open spec fn any_branch_refers(s: Seq<BranchView>, names: Seq<Seq<char>>, k: nat) -> bool
    decreases k,
{
    if k == 0 || k > s.len() {
        false
    } else {
        any_branch_refers(s, names, (k - 1) as nat) || refers(s[k - 1].expression, names)
    }
}

/// True when the body `b` holds a reference to a rule of one of `names`.
pub open spec fn body_refers(b: BodyView, names: Seq<Seq<char>>) -> bool {
    match b {
        BodyView::Class { term } => refers(term, names),
        BodyView::Union { branches } => any_branch_refers(branches, names, branches.len()),
        BodyView::Climb { branches } => any_branch_refers(branches, names, branches.len()),
    }
}

/// True when the rule is hidden: flagged to be inlined, or named with `_`
/// in front.
pub open spec fn is_hidden(r: RuleView) -> bool {
    r.auto_inline || (r.name.len() > 0 && r.name[0] == '_')
}

/// The views of a row of texts.
pub open spec fn string_views(v: Seq<String>) -> Seq<Seq<char>> {
    Seq::new(v.len(), |i: int| v[i]@)
}

/// True when `name` is one of `names`.
pub fn contains_name(names: &Vec<String>, name: &str) -> (b: bool)
    ensures
        b == string_views(names@).contains(name@),
{
    let mut i: usize = 0;
    let ghost all = string_views(names@);
    while i < names.len()
        invariant
            i <= names.len(),
            all == string_views(names@),
            forall|k: int| 0 <= k < i ==> all[k] != name@,
        decreases names.len() - i,
    {
        if same_text(names[i].as_str(), name) {
            assert(all[i as int] == name@);
            return true;
        }
        i = i + 1;
    }
    false
}

/// True when one of `nodes` refers to one of `names`.
fn any_refers_to(nodes: &Vec<ExpressionNode>, names: &Vec<String>) -> (b: bool)
    ensures
        b == any_refers(node_views(nodes@), string_views(names@), nodes@.len()),
    decreases nodes@,
{
    let mut i: usize = 0;
    let ghost all = node_views(nodes@);
    proof {
        lemma_node_views(nodes@);
    }
    while i < nodes.len()
        invariant
            i <= nodes.len(),
            all == node_views(nodes@),
            all.len() == nodes.len(),
            forall|k: int| 0 <= k < nodes.len() ==> (#[trigger] all[k]) == node_view(nodes@[k]),
            !any_refers(all, string_views(names@), i as nat),
        decreases nodes.len() - i,
    {
        if refers_to(&nodes[i], names) {
            proof {
                lemma_any_refers_grows(all, string_views(names@), (i + 1) as nat, nodes.len() as nat);
            }
            return true;
        }
        i = i + 1;
    }
    false
}

/// What refers among the first members refers among more of them.
pub proof fn lemma_any_refers_grows(s: Seq<NodeView>, names: Seq<Seq<char>>, k: nat, n: nat)
    requires
        k <= n <= s.len(),
        any_refers(s, names, k),
    ensures
        any_refers(s, names, n),
    decreases n - k,
{
    if k < n {
        lemma_any_refers_grows(s, names, k, (n - 1) as nat);
    }
}

/// True when `e` holds a reference to a rule of one of `names`.
pub fn refers_to(e: &ExpressionNode, names: &Vec<String>) -> (b: bool)
    ensures
        b == refers(e@, string_views(names@)),
    decreases *e,
{
    match &e.kind {
        ExpressionKind::Rule(r) => contains_name(names, r.name.as_str()),
        ExpressionKind::Choice(c) => {
            proof {
                lemma_node_views(c.branches@);
            }
            any_refers_to(&c.branches, names)
        },
        ExpressionKind::Concat(c) => {
            proof {
                lemma_node_views(c.terms@);
            }
            any_refers_to(&c.terms, names)
        },
        ExpressionKind::Unary(u) => refers_to(&u.base, names),
        ExpressionKind::Function(f) => {
            proof {
                lemma_node_views(f.args@);
            }
            any_refers_to(&f.args, names)
        },
        ExpressionKind::Data(_) => false,
    }
}

/// What refers among the first branches refers among more of them.
pub proof fn lemma_any_branch_refers_grows(
    s: Seq<BranchView>,
    names: Seq<Seq<char>>,
    k: nat,
    n: nat,
)
    requires
        k <= n <= s.len(),
        any_branch_refers(s, names, k),
    ensures
        any_branch_refers(s, names, n),
    decreases n - k,
{
    if k < n {
        lemma_any_branch_refers_grows(s, names, k, (n - 1) as nat);
    }
}

/// True when one of `branches` refers to one of `names`.
fn branches_refer_to(branches: &Vec<UnionBranch>, names: &Vec<String>) -> (b: bool)
    ensures
        b == any_branch_refers(branch_views(branches@), string_views(names@), branches@.len()),
{
    let mut i: usize = 0;
    let ghost all = branch_views(branches@);
    while i < branches.len()
        invariant
            i <= branches.len(),
            all == branch_views(branches@),
            !any_branch_refers(all, string_views(names@), i as nat),
        decreases branches.len() - i,
    {
        if refers_to(&branches[i].expression, names) {
            proof {
                lemma_any_branch_refers_grows(
                    all,
                    string_views(names@),
                    (i + 1) as nat,
                    branches.len() as nat,
                );
            }
            return true;
        }
        i = i + 1;
    }
    false
}

/// True when the body `b` holds a reference to a rule of one of `names`.
pub fn body_refers_to(b: &GrammarBody, names: &Vec<String>) -> (r: bool)
    ensures
        r == body_refers(b@, string_views(names@)),
{
    match b {
        GrammarBody::Class { term } => refers_to(term, names),
        GrammarBody::Union { branches } => branches_refer_to(branches, names),
        GrammarBody::Climb { branches } => branches_refer_to(branches, names),
    }
}

/// True when the rule is hidden: flagged to be inlined, or named with `_`
/// in front.
pub fn hidden(r: &GrammarRule) -> (b: bool)
    ensures
        b == is_hidden(r@),
{
    if r.auto_inline {
        return true;
    }
    proof {
        lemma_ends_are_boundaries(r.name.name@);
        lemma_offset_to_index(r.name.name@, 0);
    }
    match char_at(r.name.name.as_str(), 0) {
        Some(c) => c == '_',
        None => false,
    }
}

} // verus!
