//! Finding the rules that start with a reference to themselves.
//!
//! A parser that tries the alternatives of a rule in order never returns
//! from such a rule. An expression starts with a rule when a reference to
//! the rule stands where nothing has been consumed yet: at the front of a
//! sequence, or behind terms that may match without consuming anything.

use crate::ir::expression::{
    lemma_node_views, node_view, node_views, DataKind, DataView, ExpressionKind, ExpressionNode,
    KindView, NodeView, Operator,
};
use crate::ir::grammar::RuleMap;
use crate::ir::rule::{branch_views, BodyView, BranchView, GrammarBody, RuleView, UnionBranch};
use crate::optimize::diagnostic::{diagnostic_views, Diagnostic, DiagnosticKind, DiagnosticView};
use crate::strings::same_text;
use vstd::prelude::*;

verus! {

/// True when an expression under `op` may match without consuming anything.
pub open spec fn is_silent(op: Operator) -> bool {
    op == Operator::Optional || op == Operator::Repeats || op == Operator::Negative || op
        == Operator::Positive
}

/// True when one of the first `k` of `ops` is silent.
pub open spec fn any_silent(ops: Seq<Operator>, k: nat) -> bool
    decreases k,
{
    if k == 0 || k > ops.len() {
        false
    } else {
        any_silent(ops, (k - 1) as nat) || is_silent(ops[k - 1])
    }
}

/// True when every one of the first `k` of `s` may match without consuming
/// anything.
pub open spec fn all_nullable(s: Seq<NodeView>, k: nat) -> bool
    decreases s, k,
{
    if k == 0 || k > s.len() {
        true
    } else {
        all_nullable(s, (k - 1) as nat) && nullable(s[k - 1])
    }
}

/// True when one of the first `k` of `s` may match without consuming
/// anything.
pub open spec fn any_nullable(s: Seq<NodeView>, k: nat) -> bool
    decreases s, k,
{
    if k == 0 || k > s.len() {
        false
    } else {
        any_nullable(s, (k - 1) as nat) || nullable(s[k - 1])
    }
}

/// True when `n` may match without consuming anything, as far as `n` shows
/// it: a reference to a rule counts as consuming.
pub open spec fn nullable(n: NodeView) -> bool
    decreases n,
{
    match n.kind {
        KindView::Unary { base, ops } => any_silent(ops, ops.len()) || nullable(*base),
        KindView::Concat { terms } => all_nullable(terms, terms.len()),
        KindView::Choice { branches } => any_nullable(branches, branches.len()),
        KindView::Data { data } => match data {
            DataView::Text(t) => t.len() == 0,
            DataView::Boolean(b) => b,
            _ => false,
        },
        KindView::Rule { .. } => false,
        KindView::Function { .. } => false,
    }
}

/// True when one of the first `k` of `s` starts with the rule `name`.
pub open spec fn any_starts(s: Seq<NodeView>, name: Seq<char>, k: nat) -> bool
    decreases s, k,
{
    if k == 0 || k > s.len() {
        false
    } else {
        any_starts(s, name, (k - 1) as nat) || starts_with(s[k - 1], name)
    }
}

/// True when the sequence of the members of `s` from `i` on starts with the
/// rule `name`.
pub open spec fn row_starts(s: Seq<NodeView>, name: Seq<char>, i: nat) -> bool
    decreases s, s.len() - i,
{
    if i >= s.len() {
        false
    } else {
        starts_with(s[i as int], name) || (nullable(s[i as int]) && row_starts(s, name, i + 1))
    }
}

/// True when `n` starts with a reference to the rule `name`.
pub open spec fn starts_with(n: NodeView, name: Seq<char>) -> bool
    decreases n,
{
    match n.kind {
        KindView::Rule { name: x, .. } => x == name,
        KindView::Choice { branches } => any_starts(branches, name, branches.len()),
        KindView::Concat { terms } => row_starts(terms, name, 0),
        KindView::Unary { base, .. } => starts_with(*base, name),
        KindView::Function { .. } => false,
        KindView::Data { .. } => false,
    }
}

/// True when one of the first `k` branches starts with the rule `name`.
pub open spec fn any_branch_starts(s: Seq<BranchView>, name: Seq<char>, k: nat) -> bool
    decreases k,
{
    if k == 0 || k > s.len() {
        false
    } else {
        any_branch_starts(s, name, (k - 1) as nat) || starts_with(s[k - 1].expression, name)
    }
}

/// True when the rule starts with a reference to itself.
pub open spec fn is_left_recursive(r: RuleView) -> bool {
    match r.body {
        BodyView::Class { term } => starts_with(term, r.name),
        BodyView::Union { branches } => any_branch_starts(branches, r.name, branches.len()),
        BodyView::Climb { branches } => any_branch_starts(branches, r.name, branches.len()),
    }
}

/// A remark for each of the first `k` rules that starts with itself.
pub open spec fn left_recursive(rules: Seq<RuleView>, k: nat) -> Seq<DiagnosticView>
    decreases k,
{
    if k == 0 || k > rules.len() {
        Seq::<DiagnosticView>::empty()
    } else if is_left_recursive(rules[k - 1]) {
        left_recursive(rules, (k - 1) as nat).push(
            DiagnosticView {
                kind: DiagnosticKind::LeftRecursion,
                rule: rules[k - 1].name,
                range: rules[k - 1].range,
                fatal: true,
            },
        )
    } else {
        left_recursive(rules, (k - 1) as nat)
    }
}

/// True when one of `ops` is silent.
fn some_silent(ops: &Vec<Operator>) -> (b: bool)
    ensures
        b == any_silent(ops@, ops@.len()),
{
    let mut i: usize = 0;
    let mut found = false;
    while i < ops.len()
        invariant
            i <= ops.len(),
            found == any_silent(ops@, i as nat),
        decreases ops.len() - i,
    {
        match ops[i] {
            Operator::Optional => {
                found = true;
            },
            Operator::Repeats => {
                found = true;
            },
            Operator::Negative => {
                found = true;
            },
            Operator::Positive => {
                found = true;
            },
            _ => {},
        }
        i = i + 1;
    }
    found
}

/// True when every one (for `all`) or one (else) of `nodes` may match
/// without consuming anything.
fn nullable_row(nodes: &Vec<ExpressionNode>, all: bool) -> (b: bool)
    ensures
        b == if all {
            all_nullable(node_views(nodes@), nodes@.len())
        } else {
            any_nullable(node_views(nodes@), nodes@.len())
        },
    decreases nodes@,
{
    let mut i: usize = 0;
    let mut every = true;
    let mut some = false;
    let ghost views = node_views(nodes@);
    proof {
        lemma_node_views(nodes@);
    }
    while i < nodes.len()
        invariant
            i <= nodes.len(),
            views == node_views(nodes@),
            views.len() == nodes.len(),
            forall|k: int| 0 <= k < nodes.len() ==> (#[trigger] views[k]) == node_view(nodes@[k]),
            every == all_nullable(views, i as nat),
            some == any_nullable(views, i as nat),
        decreases nodes.len() - i,
    {
        if can_be_empty(&nodes[i]) {
            some = true;
        } else {
            every = false;
        }
        i = i + 1;
    }
    if all {
        every
    } else {
        some
    }
}

/// True when `e` may match without consuming anything.
pub fn can_be_empty(e: &ExpressionNode) -> (b: bool)
    ensures
        b == nullable(e@),
    decreases *e,
{
    match &e.kind {
        ExpressionKind::Unary(u) => some_silent(&u.ops) || can_be_empty(&u.base),
        ExpressionKind::Concat(c) => {
            proof {
                lemma_node_views(c.terms@);
            }
            nullable_row(&c.terms, true)
        },
        ExpressionKind::Choice(c) => {
            proof {
                lemma_node_views(c.branches@);
            }
            nullable_row(&c.branches, false)
        },
        ExpressionKind::Data(d) => d.can_be_empty(),
        ExpressionKind::Rule(_) => false,
        ExpressionKind::Function(_) => false,
    }
}

impl DataKind {
    /// True for the empty text and for the literal that always matches.
    pub fn can_be_empty(&self) -> (b: bool)
        ensures
            b == match self@ {
                DataView::Text(t) => t.len() == 0,
                DataView::Boolean(b) => b,
                _ => false,
            },
    {
        match self {
            DataKind::Text(t) => t.as_str().is_empty(),
            DataKind::Boolean(b) => *b,
            _ => false,
        }
    }
}

/// True when one of `nodes` starts with the rule `name`.
fn some_starts(nodes: &Vec<ExpressionNode>, name: &str) -> (b: bool)
    ensures
        b == any_starts(node_views(nodes@), name@, nodes@.len()),
    decreases nodes@, 0nat,
{
    let mut i: usize = 0;
    let mut found = false;
    let ghost views = node_views(nodes@);
    proof {
        lemma_node_views(nodes@);
    }
    while i < nodes.len()
        invariant
            i <= nodes.len(),
            views == node_views(nodes@),
            views.len() == nodes.len(),
            forall|k: int| 0 <= k < nodes.len() ==> (#[trigger] views[k]) == node_view(nodes@[k]),
            found == any_starts(views, name@, i as nat),
        decreases nodes.len() - i,
    {
        if starts_with_rule(&nodes[i], name) {
            found = true;
        }
        i = i + 1;
    }
    found
}

/// True when the sequence of `nodes` from `from` on starts with the rule
/// `name`.
fn row_starts_with(nodes: &Vec<ExpressionNode>, name: &str, from: usize) -> (b: bool)
    requires
        from <= nodes.len(),
    ensures
        b == row_starts(node_views(nodes@), name@, from as nat),
    decreases nodes@, nodes.len() - from,
{
    proof {
        lemma_node_views(nodes@);
    }
    if from >= nodes.len() {
        false
    } else if starts_with_rule(&nodes[from], name) {
        true
    } else if can_be_empty(&nodes[from]) {
        row_starts_with(nodes, name, from + 1)
    } else {
        false
    }
}

/// True when `e` starts with a reference to the rule `name`.
pub fn starts_with_rule(e: &ExpressionNode, name: &str) -> (b: bool)
    ensures
        b == starts_with(e@, name@),
    decreases *e,
{
    match &e.kind {
        ExpressionKind::Rule(r) => same_text(r.name.as_str(), name),
        ExpressionKind::Choice(c) => {
            proof {
                lemma_node_views(c.branches@);
            }
            some_starts(&c.branches, name)
        },
        ExpressionKind::Concat(c) => {
            proof {
                lemma_node_views(c.terms@);
            }
            row_starts_with(&c.terms, name, 0)
        },
        ExpressionKind::Unary(u) => starts_with_rule(&u.base, name),
        ExpressionKind::Function(_) => false,
        ExpressionKind::Data(_) => false,
    }
}

/// True when one of `branches` starts with the rule `name`.
fn some_branch_starts(branches: &Vec<UnionBranch>, name: &str) -> (b: bool)
    ensures
        b == any_branch_starts(branch_views(branches@), name@, branches@.len()),
{
    let mut i: usize = 0;
    let mut found = false;
    while i < branches.len()
        invariant
            i <= branches.len(),
            found == any_branch_starts(branch_views(branches@), name@, i as nat),
        decreases branches.len() - i,
    {
        if starts_with_rule(&branches[i].expression, name) {
            found = true;
        }
        i = i + 1;
    }
    found
}

/// A remark for each rule that starts with a reference to itself. Such a
/// grammar cannot be emitted.
pub fn find_left_recursion(rules: &RuleMap) -> (notes: Vec<Diagnostic>)
    ensures
        diagnostic_views(notes@) == left_recursive(rules.rule_views(), rules.rule_views().len()),
{
    let n = rules.rule_count();
    let mut notes: Vec<Diagnostic> = Vec::new();
    let mut i: usize = 0;
    let ghost views = rules.rule_views();
    proof {
        assert(diagnostic_views(notes@) =~= left_recursive(views, 0));
    }
    while i < n
        invariant
            i <= n,
            n == rules.rules().len(),
            views == rules.rule_views(),
            diagnostic_views(notes@) == left_recursive(views, i as nat),
        decreases n - i,
    {
        match rules.rule_at(i) {
            Some(rule) => {
                let name = rule.name.name.as_str();
                let hit = match &rule.body {
                    GrammarBody::Class { term } => starts_with_rule(term, name),
                    GrammarBody::Union { branches } => some_branch_starts(branches, name),
                    GrammarBody::Climb { branches } => some_branch_starts(branches, name),
                };
                if hit {
                    let note = Diagnostic::new(
                        DiagnosticKind::LeftRecursion,
                        name,
                        rule.range.start,
                        rule.range.end,
                    );
                    let ghost before = diagnostic_views(notes@);
                    notes.push(note);
                    proof {
                        assert(diagnostic_views(notes@) =~= before.push(note@));
                    }
                }
            },
            None => {},
        }
        i = i + 1;
    }
    notes
}

} // verus!
