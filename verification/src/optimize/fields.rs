//! The fields of the rules: the tagged parts of their bodies.

use crate::ir::expression::{
    lemma_node_views, node_view, node_views, ExpressionKind, ExpressionNode, KindView, NodeView,
};
use crate::ir::grammar::RuleMap;
use crate::ir::rule::{branch_views, BodyView, BranchView, GrammarBody, RuleView, UnionBranch};
use vstd::prelude::*;
use vstd::string::*;

verus! {

/// A field of the type of a rule: a tagged part of its body.
#[derive(Clone, Debug)]
pub struct FieldDescriptor {
    /// The name of the rule.
    pub rule: String,
    /// The tag of the part.
    pub field: String,
}

/// The model of a field: the name of the rule and the tag.
pub open spec fn field_views(s: Seq<FieldDescriptor>) -> Seq<(Seq<char>, Seq<char>)> {
    Seq::new(s.len(), |i: int| (s[i].rule@, s[i].field@))
}

/// The tags in the first `k` of `s`, in the order of the text.
pub open spec fn tags_in(s: Seq<NodeView>, k: nat) -> Seq<Seq<char>>
    decreases s, k,
{
    if k == 0 || k > s.len() {
        Seq::<Seq<char>>::empty()
    } else {
        tags_in(s, (k - 1) as nat) + tags(s[k - 1])
    }
}

/// The tag of `n`, if it has one.
pub open spec fn own_tag(n: NodeView) -> Seq<Seq<char>> {
    if n.tag.len() > 0 {
        seq![n.tag]
    } else {
        Seq::<Seq<char>>::empty()
    }
}

/// The tags in `n`, in the order of the text: that of `n` first, then
/// those of its parts.
pub open spec fn tags(n: NodeView) -> Seq<Seq<char>>
    decreases n,
{
    own_tag(n) + match n.kind {
        KindView::Choice { branches } => tags_in(branches, branches.len()),
        KindView::Concat { terms } => tags_in(terms, terms.len()),
        KindView::Unary { base, .. } => tags(*base),
        KindView::Function { args, .. } => tags_in(args, args.len()),
        KindView::Rule { .. } => Seq::<Seq<char>>::empty(),
        KindView::Data { .. } => Seq::<Seq<char>>::empty(),
    }
}

/// The tags in the first `k` branches.
pub open spec fn branch_tags(s: Seq<BranchView>, k: nat) -> Seq<Seq<char>>
    decreases k,
{
    if k == 0 || k > s.len() {
        Seq::<Seq<char>>::empty()
    } else {
        branch_tags(s, (k - 1) as nat) + tags(s[k - 1].expression)
    }
}

/// The tags in the body of a rule.
pub open spec fn body_tags(b: BodyView) -> Seq<Seq<char>> {
    match b {
        BodyView::Class { term } => tags(term),
        BodyView::Union { branches } => branch_tags(branches, branches.len()),
        BodyView::Climb { branches } => branch_tags(branches, branches.len()),
    }
}

/// The fields of the rule `r`.
pub open spec fn rule_fields(r: RuleView) -> Seq<(Seq<char>, Seq<char>)> {
    Seq::new(body_tags(r.body).len(), |i: int| (r.name, body_tags(r.body)[i]))
}

/// The fields of the first `k` rules.
pub open spec fn fields_of(rules: Seq<RuleView>, k: nat) -> Seq<(Seq<char>, Seq<char>)>
    decreases k,
{
    if k == 0 || k > rules.len() {
        Seq::<(Seq<char>, Seq<char>)>::empty()
    } else {
        fields_of(rules, (k - 1) as nat) + rule_fields(rules[k - 1])
    }
}

/// The views of a row of texts.
pub open spec fn tag_views(v: Seq<String>) -> Seq<Seq<char>> {
    Seq::new(v.len(), |i: int| v[i]@)
}

/// Adds the tags in `nodes` to `out`.
fn collect_row(nodes: &Vec<ExpressionNode>, out: &mut Vec<String>)
    ensures
        tag_views(final(out)@) == tag_views(old(out)@) + tags_in(node_views(nodes@), nodes@.len()),
    decreases nodes@,
{
    let mut i: usize = 0;
    let ghost views = node_views(nodes@);
    let ghost first = tag_views(out@);
    proof {
        lemma_node_views(nodes@);
        assert(first + tags_in(views, 0) =~= first);
    }
    while i < nodes.len()
        invariant
            i <= nodes.len(),
            views == node_views(nodes@),
            views.len() == nodes.len(),
            forall|k: int| 0 <= k < nodes.len() ==> (#[trigger] views[k]) == node_view(nodes@[k]),
            tag_views(out@) == first + tags_in(views, i as nat),
        decreases nodes.len() - i,
    {
        let ghost before = tag_views(out@);
        collect_tags(&nodes[i], out);
        proof {
            assert(first + tags_in(views, (i + 1) as nat) =~= before + tags(views[i as int]));
        }
        i = i + 1;
    }
}

/// Adds the tags in `e` to `out`.
pub fn collect_tags(e: &ExpressionNode, out: &mut Vec<String>)
    ensures
        tag_views(final(out)@) == tag_views(old(out)@) + tags(e@),
    decreases *e,
{
    let ghost first = tag_views(out@);
    if !e.tag.as_str().is_empty() {
        out.push(e.tag.clone());
    }
    proof {
        assert(tag_views(out@) =~= first + own_tag(e@));
    }
    let ghost mid = tag_views(out@);
    match &e.kind {
        ExpressionKind::Choice(c) => {
            proof {
                lemma_node_views(c.branches@);
            }
            collect_row(&c.branches, out);
        },
        ExpressionKind::Concat(c) => {
            proof {
                lemma_node_views(c.terms@);
            }
            collect_row(&c.terms, out);
        },
        ExpressionKind::Unary(u) => {
            collect_tags(&u.base, out);
        },
        ExpressionKind::Function(f) => {
            proof {
                lemma_node_views(f.args@);
            }
            collect_row(&f.args, out);
        },
        ExpressionKind::Rule(_) => {
            proof {
                assert(mid + Seq::<Seq<char>>::empty() =~= mid);
            }
        },
        ExpressionKind::Data(_) => {
            proof {
                assert(mid + Seq::<Seq<char>>::empty() =~= mid);
            }
        },
    }
    proof {
        let rest = tag_views(out@).skip(mid.len() as int);
        assert(tag_views(out@) =~= first + (own_tag(e@) + rest));
        assert(tag_views(out@) =~= mid + rest);
    }
}

/// Adds the tags in `branches` to `out`.
fn collect_branches(branches: &Vec<UnionBranch>, out: &mut Vec<String>)
    ensures
        tag_views(final(out)@) == tag_views(old(out)@) + branch_tags(
            branch_views(branches@),
            branches@.len(),
        ),
{
    let mut i: usize = 0;
    let ghost views = branch_views(branches@);
    let ghost first = tag_views(out@);
    proof {
        assert(first + branch_tags(views, 0) =~= first);
    }
    while i < branches.len()
        invariant
            i <= branches.len(),
            views == branch_views(branches@),
            tag_views(out@) == first + branch_tags(views, i as nat),
        decreases branches.len() - i,
    {
        let ghost before = tag_views(out@);
        collect_tags(&branches[i].expression, out);
        proof {
            assert(first + branch_tags(views, (i + 1) as nat) =~= before + tags(
                views[i as int].expression,
            ));
        }
        i = i + 1;
    }
}

/// The fields of the rules: for every rule in turn, the tags in its body
/// in the order of the text.
pub fn collect_fields(rules: &RuleMap) -> (out: Vec<FieldDescriptor>)
    ensures
        field_views(out@) == fields_of(rules.rule_views(), rules.rule_views().len()),
{
    let n = rules.rule_count();
    let mut out: Vec<FieldDescriptor> = Vec::new();
    let mut i: usize = 0;
    let ghost views = rules.rule_views();
    proof {
        assert(field_views(out@) =~= fields_of(views, 0));
    }
    while i < n
        invariant
            i <= n,
            n == rules.rules().len(),
            views == rules.rule_views(),
            field_views(out@) == fields_of(views, i as nat),
        decreases n - i,
    {
        match rules.rule_at(i) {
            Some(rule) => {
                let mut found: Vec<String> = Vec::new();
                proof {
                    assert(tag_views(found@) =~= Seq::<Seq<char>>::empty());
                }
                match &rule.body {
                    GrammarBody::Class { term } => collect_tags(term, &mut found),
                    GrammarBody::Union { branches } => collect_branches(branches, &mut found),
                    GrammarBody::Climb { branches } => collect_branches(branches, &mut found),
                }
                proof {
                    assert(tag_views(found@) =~= body_tags(views[i as int].body));
                }
                let ghost start = field_views(out@);
                let mut k: usize = 0;
                while k < found.len()
                    invariant
                        k <= found.len(),
                        i < n,
                        n == rules.rules().len(),
                        views == rules.rule_views(),
                        rule.name.name@ == views[i as int].name,
                        tag_views(found@) == body_tags(views[i as int].body),
                        field_views(out@) == start + rule_fields(views[i as int]).take(k as int),
                    decreases found.len() - k,
                {
                    let ghost before = field_views(out@);
                    out.push(
                        FieldDescriptor { rule: rule.name.name.clone(), field: found[k].clone() },
                    );
                    proof {
                        let f = rule_fields(views[i as int]);
                        assert(tag_views(found@)[k as int] == found@[k as int]@);
                        assert(field_views(out@) =~= before.push(f[k as int]));
                        assert(f.take(k + 1) =~= f.take(k as int).push(f[k as int]));
                    }
                    k = k + 1;
                }
                proof {
                    let f = rule_fields(views[i as int]);
                    assert(f.take(found.len() as int) =~= f);
                }
            },
            None => {},
        }
        i = i + 1;
    }
    out
}

} // verus!
