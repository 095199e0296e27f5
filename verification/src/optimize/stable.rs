//! Running a stage again changes nothing.
//!
//! This holds of every stage that rewrites the rules one by one. It does
//! not hold of taking out dead code, whose reach is counted in steps.

use crate::ir::expression::{KindView, NodeView};
use crate::ir::rule::{BodyView, RuleView};
use crate::optimize::analysis::{any_refers, refers};
use crate::optimize::inlining::{candidates, inlined_bodies, inlined_names, is_candidate};
use crate::optimize::pass::PassView;
use crate::optimize::pipeline::{after_stage, ignore_marker, rule_refs, stage_context};
use crate::optimize::refine::lemma_refine_idempotent;
use crate::optimize::settled::{
    all_settled, bodies_closed, is_settled, lemma_emit_settles, lemma_fuse_settles,
    lemma_ignore_settles, lemma_inline_settles, lemma_parts_fixed, lemma_remark_settles,
    lemma_rewritten_settled,
};
use crate::optimize::stage::{
    keeps_terms, staged, staged_branches, staged_rule, staged_rules, ContextView, Stage,
};
use vstd::prelude::*;

verus! {

/// True when the stage can run with what it knows: for inlining, no body of
/// an inlined rule refers to an inlined rule, and for the stage of ignored
/// rules, what stands for them is left as it is.
pub open spec fn stage_ready(stage: Stage, ctx: ContextView) -> bool {
    match stage {
        Stage::Inline => bodies_closed(ctx.inline_names, ctx.inline_bodies),
        Stage::Ignore => ctx.ignore matches Some(ignore) ==> is_settled(
            PassView::Ignore { ignore },
            ignore,
        ),
        _ => true,
    }
}

/// What a stage has made of an expression of a rule, it leaves as it is.
pub proof fn lemma_staged_idempotent(stage: Stage, ctx: ContextView, r: RuleView, n: NodeView)
    requires
        stage_ready(stage, ctx),
    ensures
        staged(stage, ctx, r, staged(stage, ctx, r, n)) == staged(stage, ctx, r, n),
{
    match stage {
        Stage::Refine => {
            lemma_refine_idempotent(n);
        },
        Stage::Inline => {
            if !is_candidate(r, ctx.ignored) {
                lemma_inline_settles(ctx.inline_names, ctx.inline_bodies);
                lemma_rewritten_settled(
                    PassView::Inline { names: ctx.inline_names, bodies: ctx.inline_bodies },
                    n,
                );
            }
        },
        Stage::Fuse => {
            lemma_fuse_settles(r.atomic_rule);
            lemma_rewritten_settled(PassView::Fuse { atomic: r.atomic_rule }, n);
        },
        Stage::Ignore => {
            if !keeps_terms(ctx, r) {
                lemma_ignore_settles(ctx.ignore->0);
                lemma_rewritten_settled(PassView::Ignore { ignore: ctx.ignore->0 }, n);
            }
        },
        Stage::Remark => {
            lemma_remark_settles(r.eliminate_unmarked, r.eliminate_unnamed);
            lemma_rewritten_settled(
                PassView::Remark { unmarked: r.eliminate_unmarked, unnamed: r.eliminate_unnamed },
                n,
            );
        },
        Stage::Emit => {
            lemma_emit_settles();
            lemma_rewritten_settled(PassView::Emit, n);
        },
    }
}

/// What a stage does to an expression depends on the name and the flags of
/// its rule, and on whether the body of the rule is one expression.
proof fn lemma_staged_same_rule(
    stage: Stage,
    ctx: ContextView,
    a: RuleView,
    b: RuleView,
    n: NodeView,
)
    requires
        a.name == b.name,
        a.auto_inline == b.auto_inline,
        a.atomic_rule == b.atomic_rule,
        a.eliminate_unmarked == b.eliminate_unmarked,
        a.eliminate_unnamed == b.eliminate_unnamed,
        a.body is Class <==> b.body is Class,
    ensures
        staged(stage, ctx, a, n) == staged(stage, ctx, b, n),
{
}

/// What a stage has made of a rule, it leaves as it is.
pub proof fn lemma_staged_rule_idempotent(stage: Stage, ctx: ContextView, r: RuleView)
    requires
        stage_ready(stage, ctx),
    ensures
        staged_rule(stage, ctx, staged_rule(stage, ctx, r)) == staged_rule(stage, ctx, r),
{
    let once = staged_rule(stage, ctx, r);
    match r.body {
        BodyView::Class { term } => {
            lemma_staged_same_rule(stage, ctx, once, r, staged(stage, ctx, r, term));
            lemma_staged_idempotent(stage, ctx, r, term);
        },
        BodyView::Union { branches } => {
            let first = staged_branches(stage, ctx, r, branches);
            assert forall|i: int| 0 <= i < branches.len() implies staged(
                stage,
                ctx,
                once,
                #[trigger] first[i].expression,
            ) == first[i].expression by {
                lemma_staged_same_rule(stage, ctx, once, r, first[i].expression);
                lemma_staged_idempotent(stage, ctx, r, branches[i].expression);
            }
            assert(staged_branches(stage, ctx, once, first) =~= first);
        },
        BodyView::Climb { branches } => {
            let first = staged_branches(stage, ctx, r, branches);
            assert forall|i: int| 0 <= i < branches.len() implies staged(
                stage,
                ctx,
                once,
                #[trigger] first[i].expression,
            ) == first[i].expression by {
                lemma_staged_same_rule(stage, ctx, once, r, first[i].expression);
                lemma_staged_idempotent(stage, ctx, r, branches[i].expression);
            }
            assert(staged_branches(stage, ctx, once, first) =~= first);
        },
    }
}

/// What a stage has made of the rules of a grammar, it leaves as it is, as
/// long as it knows the same of the grammar.
pub proof fn lemma_staged_rules_idempotent(stage: Stage, ctx: ContextView, rules: Seq<RuleView>)
    requires
        stage_ready(stage, ctx),
    ensures
        staged_rules(stage, ctx, staged_rules(stage, ctx, rules)) == staged_rules(
            stage,
            ctx,
            rules,
        ),
{
    let once = staged_rules(stage, ctx, rules);
    assert forall|i: int| 0 <= i < rules.len() implies staged_rule(stage, ctx, #[trigger] once[i])
        == once[i] by {
        lemma_staged_rule_idempotent(stage, ctx, rules[i]);
    }
    assert(staged_rules(stage, ctx, once) =~= once);
}

/// References to rules are left as they are where ignored rules are put
/// between terms.
proof fn lemma_refs_settled(p: PassView, names: Seq<Seq<char>>, k: nat)
    requires
        p is Ignore,
        k <= names.len(),
    ensures
        all_settled(p, rule_refs(names), k),
    decreases k,
{
    if k > 0 {
        lemma_refs_settled(p, names, (k - 1) as nat);
        lemma_parts_fixed(p, rule_refs(names)[k - 1]);
    }
}

/// What stands for the ignored rules is left as it is where ignored rules
/// are put between terms.
pub proof fn lemma_marker_settled(names: Seq<Seq<char>>)
    requires
        names.len() > 0,
    ensures
        is_settled(
            PassView::Ignore { ignore: ignore_marker(names)->0 },
            ignore_marker(names)->0,
        ),
{
    let marker = ignore_marker(names)->0;
    let p = PassView::Ignore { ignore: marker };
    let base = *marker.kind->Unary_base;
    if names.len() == 1 {
        lemma_parts_fixed(p, base);
    } else {
        lemma_refs_settled(p, names, names.len());
        lemma_parts_fixed(p, base);
    }
    assert(is_settled(p, base));
    lemma_parts_fixed(p, marker);
}

/// An expression that refers to none of the names refers to none of the
/// first of them.
proof fn lemma_refers_fewer(n: NodeView, all: Seq<Seq<char>>, some: Seq<Seq<char>>)
    requires
        forall|x: Seq<char>| some.contains(x) ==> all.contains(x),
        !refers(n, all),
    ensures
        !refers(n, some),
    decreases n, 0nat, 1nat,
{
    match n.kind {
        KindView::Choice { branches } => lemma_any_refers_fewer(branches, all, some, branches.len()),
        KindView::Concat { terms } => lemma_any_refers_fewer(terms, all, some, terms.len()),
        KindView::Unary { base, .. } => lemma_refers_fewer(*base, all, some),
        KindView::Function { args, .. } => lemma_any_refers_fewer(args, all, some, args.len()),
        KindView::Rule { .. } => {},
        KindView::Data { .. } => {},
    }
}

/// Members that refer to none of the names refer to none of the first of
/// them.
proof fn lemma_any_refers_fewer(
    s: Seq<NodeView>,
    all: Seq<Seq<char>>,
    some: Seq<Seq<char>>,
    k: nat,
)
    requires
        forall|x: Seq<char>| some.contains(x) ==> all.contains(x),
        k <= s.len(),
        !any_refers(s, all, k),
    ensures
        !any_refers(s, some, k),
    decreases s, k, 0nat,
{
    if k > 0 {
        lemma_any_refers_fewer(s, all, some, (k - 1) as nat);
        lemma_refers_fewer(s[k - 1], all, some);
    }
}

/// Every inlined rule among the first rules is a candidate among them, and
/// its body refers to no candidate.
proof fn lemma_inlined_are_candidates(rules: Seq<RuleView>, ignored: Seq<Seq<char>>, k: nat)
    requires
        k <= rules.len(),
    ensures
        inlined_names(rules, ignored, k).len() == inlined_bodies(rules, ignored, k).len(),
        forall|x: Seq<char>|
            inlined_names(rules, ignored, k).contains(x) ==> candidates(rules, ignored, k).contains(
                x,
            ),
        forall|i: int|
            0 <= i < inlined_bodies(rules, ignored, k).len() ==> !refers(
                #[trigger] inlined_bodies(rules, ignored, k)[i],
                candidates(rules, ignored, rules.len()),
            ),
    decreases k,
{
    if k > 0 {
        lemma_inlined_are_candidates(rules, ignored, (k - 1) as nat);
        let names = inlined_names(rules, ignored, k);
        let fewer = inlined_names(rules, ignored, (k - 1) as nat);
        let cands = candidates(rules, ignored, k);
        let fewer_cands = candidates(rules, ignored, (k - 1) as nat);
        assert forall|x: Seq<char>| names.contains(x) implies cands.contains(x) by {
            let i = choose|i: int| 0 <= i < names.len() && names[i] == x;
            if i < fewer.len() {
                assert(fewer[i] == x);
                assert(fewer.contains(x));
                let j = choose|j: int| 0 <= j < fewer_cands.len() && fewer_cands[j] == x;
                assert(cands[j] == x);
            } else {
                assert(cands.last() == x);
            }
        }
    }
}

/// No body of an inlined rule refers to an inlined rule.
pub proof fn lemma_inline_context_closed(rules: Seq<RuleView>, ignored: Seq<Seq<char>>)
    ensures
        bodies_closed(
            inlined_names(rules, ignored, rules.len()),
            inlined_bodies(rules, ignored, rules.len()),
        ),
{
    let n = rules.len();
    let names = inlined_names(rules, ignored, n);
    let bodies = inlined_bodies(rules, ignored, n);
    let cands = candidates(rules, ignored, n);
    lemma_inlined_are_candidates(rules, ignored, n);
    assert forall|i: int| 0 <= i < bodies.len() implies !refers(#[trigger] bodies[i], names) by {
        lemma_refers_fewer(bodies[i], cands, names);
    }
}

/// The context of a stage is ready for the stage.
pub proof fn lemma_context_ready(stage: Stage, rules: Seq<RuleView>, ignored: Seq<Seq<char>>)
    ensures
        stage_ready(stage, stage_context(stage, rules, ignored)),
{
    match stage {
        Stage::Inline => {
            lemma_inline_context_closed(rules, ignored);
        },
        Stage::Ignore => {
            if ignored.len() > 0 {
                lemma_marker_settled(ignored);
            }
        },
        _ => {},
    }
}

/// Inlining leaves the candidates as they are, and so the names of the
/// candidates.
proof fn lemma_candidates_kept(
    ctx: ContextView,
    rules: Seq<RuleView>,
    ignored: Seq<Seq<char>>,
    k: nat,
)
    requires
        ctx.ignored == ignored,
        k <= rules.len(),
    ensures
        candidates(staged_rules(Stage::Inline, ctx, rules), ignored, k) == candidates(
            rules,
            ignored,
            k,
        ),
    decreases k,
{
    if k > 0 {
        lemma_candidates_kept(ctx, rules, ignored, (k - 1) as nat);
    }
}

/// Inlining leaves the rules that are inlined as they are.
proof fn lemma_inlined_kept(ctx: ContextView, rules: Seq<RuleView>, ignored: Seq<Seq<char>>, k: nat)
    requires
        ctx.ignored == ignored,
        k <= rules.len(),
    ensures
        inlined_names(staged_rules(Stage::Inline, ctx, rules), ignored, k) == inlined_names(
            rules,
            ignored,
            k,
        ),
        inlined_bodies(staged_rules(Stage::Inline, ctx, rules), ignored, k) == inlined_bodies(
            rules,
            ignored,
            k,
        ),
    decreases k,
{
    let after = staged_rules(Stage::Inline, ctx, rules);
    lemma_candidates_kept(ctx, rules, ignored, rules.len());
    if k > 0 {
        lemma_inlined_kept(ctx, rules, ignored, (k - 1) as nat);
        let r = rules[k - 1];
        if is_candidate(r, ignored) {
            assert(after[k - 1].body == r.body);
        }
    }
}

/// Running a stage that rewrites the rules one by one a second time
/// changes nothing.
pub proof fn lemma_stage_idempotent(stage: Stage, rules: Seq<RuleView>, ignored: Seq<Seq<char>>)
    ensures
        after_stage(stage, after_stage(stage, rules, ignored), ignored) == after_stage(
            stage,
            rules,
            ignored,
        ),
{
    let ctx = stage_context(stage, rules, ignored);
    let once = after_stage(stage, rules, ignored);
    if stage == Stage::Inline {
        lemma_inlined_kept(ctx, rules, ignored, rules.len());
    }
    assert(stage_context(stage, once, ignored) == ctx);
    lemma_context_ready(stage, rules, ignored);
    lemma_staged_rules_idempotent(stage, ctx, rules);
}

/// True when no pass changes the rules: every stage that rewrites rules
/// leaves them as they are, and all of them are live.
pub open spec fn is_optimised(rules: Seq<RuleView>, ignored: Seq<Seq<char>>, keep: Seq<Seq<char>>) -> bool {
    &&& after_stage(Stage::Refine, rules, ignored) == rules
    &&& after_stage(Stage::Inline, rules, ignored) == rules
    &&& after_stage(Stage::Fuse, rules, ignored) == rules
    &&& crate::optimize::dead_code::kept(
        rules,
        crate::optimize::dead_code::live(rules, keep),
        rules.len(),
    ) == rules
    &&& after_stage(Stage::Ignore, rules, ignored) == rules
    &&& after_stage(Stage::Remark, rules, ignored) == rules
    &&& after_stage(Stage::Emit, rules, ignored) == rules
}

/// Rules that no pass changes are what all passes in their order make of
/// them.
pub proof fn lemma_optimised_fixed(
    rules: Seq<RuleView>,
    ignored: Seq<Seq<char>>,
    keep: Seq<Seq<char>>,
)
    requires
        is_optimised(rules, ignored, keep),
    ensures
        crate::optimize::pipeline::optimized_rules(rules, ignored, keep) == rules,
{
}

/// Running all passes a second time changes nothing, where no single pass
/// changes what all passes have made of the rules.
pub proof fn lemma_optimize_twice(
    rules: Seq<RuleView>,
    ignored: Seq<Seq<char>>,
    keep: Seq<Seq<char>>,
)
    requires
        is_optimised(
            crate::optimize::pipeline::optimized_rules(rules, ignored, keep),
            ignored,
            keep,
        ),
    ensures
        crate::optimize::pipeline::optimized_rules(
            crate::optimize::pipeline::optimized_rules(rules, ignored, keep),
            ignored,
            keep,
        ) == crate::optimize::pipeline::optimized_rules(rules, ignored, keep),
{
    lemma_optimised_fixed(
        crate::optimize::pipeline::optimized_rules(rules, ignored, keep),
        ignored,
        keep,
    );
}

} // verus!
