//! The stages of the optimiser that rewrite the bodies of the rules one by
//! one.

use crate::ir::expression::{node_view, ExpressionNode, NodeView};
use crate::ir::grammar::{inserted, lemma_name_index, name_index, names_of, RuleMap};
use crate::ir::rule::{
    branch_views, BodyView, BranchView, GrammarBody, GrammarRule, RuleView, UnionBranch,
};
use crate::optimize::analysis::{contains_name, string_views};
use crate::optimize::inlining::{candidate, is_candidate};
use crate::optimize::pass::{
    inline_bodies, inline_names, rewrite, rewritten, InlineRule, NodePass, PassView,
};
use crate::optimize::refine::{refine, refined};
use vstd::prelude::*;

verus! {

/// A stage that rewrites expressions.
#[derive(Clone, Copy, Debug, PartialEq, Eq, Structural)]
pub enum Stage {
    /// Brings every expression into canonical form.
    Refine,
    /// Puts the bodies of the rules to inline in the place of references.
    Inline,
    /// Joins neighbours that can be matched as one.
    Fuse,
    /// Puts what is ignored between the terms of the sequences of rules
    /// that are not atomic.
    Ignore,
    /// Takes tags away where a rule asks for it.
    Remark,
    /// Puts what built-in functions stand for in the place of their calls.
    Emit,
}

/// What the stages know of the grammar as a whole.
pub struct StageContext {
    /// The rules whose bodies take the place of references to them.
    pub inline: Vec<InlineRule>,
    /// What stands for all that is ignored, if anything is.
    pub ignore: Option<ExpressionNode>,
    /// The names of the rules that are ignored.
    pub ignored: Vec<String>,
}

/// The model of what the stages know.
pub struct ContextView {
    pub inline_names: Seq<Seq<char>>,
    pub inline_bodies: Seq<NodeView>,
    pub ignore: Option<NodeView>,
    pub ignored: Seq<Seq<char>>,
}

impl View for StageContext {
    type V = ContextView;

    open spec fn view(&self) -> ContextView {
        ContextView {
            inline_names: inline_names(self.inline@),
            inline_bodies: inline_bodies(self.inline@),
            ignore: match self.ignore {
                Some(e) => Some(node_view(e)),
                None => None,
            },
            ignored: string_views(self.ignored@),
        }
    }
}

/// True when the stage `Ignore` leaves the rule `r` as it is: an atomic
/// rule, an ignored rule, and any rule where nothing is ignored.
pub open spec fn keeps_terms(ctx: ContextView, r: RuleView) -> bool {
    r.atomic_rule || ctx.ignore is None || ctx.ignored.contains(r.name)
}

/// What the stage makes of the expression `n` of the rule `r`.
pub open spec fn staged(stage: Stage, ctx: ContextView, r: RuleView, n: NodeView) -> NodeView {
    match stage {
        Stage::Refine => refined(n),
        Stage::Inline => if is_candidate(r, ctx.ignored) {
            n
        } else {
            rewritten(PassView::Inline { names: ctx.inline_names, bodies: ctx.inline_bodies }, n)
        },
        Stage::Fuse => rewritten(PassView::Fuse { atomic: r.atomic_rule }, n),
        Stage::Ignore => if keeps_terms(ctx, r) {
            n
        } else {
            rewritten(PassView::Ignore { ignore: ctx.ignore->0 }, n)
        },
        Stage::Remark => rewritten(
            PassView::Remark { unmarked: r.eliminate_unmarked, unnamed: r.eliminate_unnamed },
            n,
        ),
        Stage::Emit => rewritten(PassView::Emit, n),
    }
}

/// What the stage makes of the branches of the rule `r`.
pub open spec fn staged_branches(
    stage: Stage,
    ctx: ContextView,
    r: RuleView,
    s: Seq<BranchView>,
) -> Seq<BranchView> {
    Seq::new(
        s.len(),
        |i: int| BranchView { tag: s[i].tag, expression: staged(stage, ctx, r, s[i].expression) },
    )
}

/// What the stage makes of the rule `r`.
pub open spec fn staged_rule(stage: Stage, ctx: ContextView, r: RuleView) -> RuleView {
    RuleView {
        body: match r.body {
            BodyView::Class { term } => BodyView::Class { term: staged(stage, ctx, r, term) },
            BodyView::Union { branches } => BodyView::Union {
                branches: staged_branches(stage, ctx, r, branches),
            },
            BodyView::Climb { branches } => BodyView::Climb {
                branches: staged_branches(stage, ctx, r, branches),
            },
        },
        ..r
    }
}

/// What the stage makes of the rules.
pub open spec fn staged_rules(stage: Stage, ctx: ContextView, rules: Seq<RuleView>) -> Seq<RuleView> {
    Seq::new(rules.len(), |i: int| staged_rule(stage, ctx, rules[i]))
}

/// What the stage makes of the expression `e` of the rule `rule`.
pub fn stage_node(stage: Stage, ctx: &StageContext, rule: &GrammarRule, e: &ExpressionNode) -> (out:
    ExpressionNode)
    ensures
        out@ == staged(stage, ctx@, rule@, e@),
{
    match stage {
        Stage::Refine => refine(e),
        Stage::Inline => {
            if candidate(rule, &ctx.ignored) {
                e.duplicate()
            } else {
                rewrite(&NodePass::Inline { rules: &ctx.inline }, e)
            }
        },
        Stage::Fuse => rewrite(&NodePass::Fuse { atomic: rule.atomic_rule }, e),
        Stage::Ignore => {
            if rule.atomic_rule || contains_name(&ctx.ignored, rule.name.name.as_str()) {
                e.duplicate()
            } else {
                match &ctx.ignore {
                    Some(ignore) => rewrite(&NodePass::Ignore { ignore }, e),
                    None => e.duplicate(),
                }
            }
        },
        Stage::Remark => rewrite(
            &NodePass::Remark {
                unmarked: rule.eliminate_unmarked,
                unnamed: rule.eliminate_unnamed,
            },
            e,
        ),
        Stage::Emit => rewrite(&NodePass::Emit, e),
    }
}

/// What the stage makes of the branches of the rule `rule`.
fn stage_branches(
    stage: Stage,
    ctx: &StageContext,
    rule: &GrammarRule,
    branches: &Vec<UnionBranch>,
) -> (out: Vec<UnionBranch>)
    ensures
        branch_views(out@) == staged_branches(stage, ctx@, rule@, branch_views(branches@)),
{
    let mut out: Vec<UnionBranch> = Vec::new();
    let mut i: usize = 0;
    while i < branches.len()
        invariant
            i <= branches.len(),
            out.len() == i,
            forall|k: int|
                0 <= k < i ==> out@[k]@ == (BranchView {
                    tag: branches@[k]@.tag,
                    expression: staged(stage, ctx@, rule@, branches@[k]@.expression),
                }),
        decreases branches.len() - i,
    {
        let b = &branches[i];
        let tag = match &b.tag {
            Some(s) => Some(s.duplicate()),
            None => None,
        };
        out.push(UnionBranch { tag, expression: stage_node(stage, ctx, rule, &b.expression) });
        i = i + 1;
    }
    proof {
        assert(branch_views(out@) =~= staged_branches(
            stage,
            ctx@,
            rule@,
            branch_views(branches@),
        ));
    }
    out
}

/// What the stage makes of the rule `rule`.
pub fn stage_rule(stage: Stage, ctx: &StageContext, rule: &GrammarRule) -> (out: GrammarRule)
    ensures
        out@ == staged_rule(stage, ctx@, rule@),
{
    let body = match &rule.body {
        GrammarBody::Class { term } => GrammarBody::Class {
            term: stage_node(stage, ctx, rule, term),
        },
        GrammarBody::Union { branches } => GrammarBody::Union {
            branches: stage_branches(stage, ctx, rule, branches),
        },
        GrammarBody::Climb { branches } => GrammarBody::Climb {
            branches: stage_branches(stage, ctx, rule, branches),
        },
    };
    rule.replace_body(body)
}

/// A rule whose name none of `rules` has goes after all of them.
pub proof fn lemma_inserted_new(rules: Seq<GrammarRule>, rule: GrammarRule)
    requires
        forall|k: int| 0 <= k < rules.len() ==> (#[trigger] rules[k]).name.name@ != rule.name.name@,
    ensures
        inserted(rules, rule) == rules.push(rule),
{
    let names = names_of(rules);
    lemma_name_index(names, rule.name.name@);
    let at = name_index(names, rule.name.name@);
    if at < rules.len() {
        assert(names[at] == rules[at].name.name@);
    }
}

/// What the stage makes of the rules: every rule in its place, with its
/// body rewritten.
pub fn stage_rules(stage: Stage, ctx: &StageContext, rules: &RuleMap) -> (out: RuleMap)
    requires
        rules.wf(),
    ensures
        out.wf(),
        out.rule_views() == staged_rules(stage, ctx@, rules.rule_views()),
{
    let mut out = RuleMap::new();
    let n = rules.rule_count();
    let mut i: usize = 0;
    proof {
        rules.lemma_names_unique();
    }
    while i < n
        invariant
            i <= n,
            n == rules.rules().len(),
            rules.wf(),
            out.wf(),
            out.rules().len() == i,
            forall|k: int|
                0 <= k < i ==> (#[trigger] out.rules()[k])@ == staged_rule(
                    stage,
                    ctx@,
                    rules.rules()[k]@,
                ),
            forall|a: int, b: int|
                0 <= a < b < rules.rules().len() ==> (#[trigger] rules.rules()[a]).name.name@ != (
                #[trigger] rules.rules()[b]).name.name@,
        decreases n - i,
    {
        match rules.rule_at(i) {
            Some(rule) => {
                let next = stage_rule(stage, ctx, rule);
                proof {
                    assert forall|k: int| 0 <= k < out.rules().len() implies (
                    #[trigger] out.rules()[k]).name.name@ != next.name.name@ by {
                        assert(out.rules()[k]@.name == rules.rules()[k]@.name);
                        assert(rules.rules()[k].name.name@ != rules.rules()[i as int].name.name@);
                    }
                    lemma_inserted_new(out.rules(), next);
                }
                out.insert(next);
            },
            None => {},
        }
        i = i + 1;
    }
    proof {
        assert(out.rule_views() =~= staged_rules(stage, ctx@, rules.rule_views()));
    }
    out
}

} // verus!
