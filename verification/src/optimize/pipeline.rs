//! The optimiser: its passes one by one, and all of them in their order.
//!
//! The order is: refinement, inlining, fusion, dead code, ignored rules,
//! tags, built-in functions. Every pass takes a grammar and hands back the
//! grammar with its rules rewritten, the fields of the rules, and what it
//! has to remark. Nothing but the rules of a grammar is changed.

use crate::ir::expression::{
    lemma_node_views, node_view, node_views, ExpressionKind, ExpressionNode, KindView, NodeView,
    Operator, UnaryExpression,
};
use crate::ir::grammar::{symbol_names, GrammarInfo, RuleMap};
use crate::ir::rule::{branch_views, BodyView, BranchView, GrammarBody, RuleView, Symbol, UnionBranch};
use crate::optimize::analysis::string_views;
use crate::optimize::dead_code::{eliminate, kept, live, unused};
use crate::optimize::diagnostic::{diagnostic_views, Diagnostic, DiagnosticKind, DiagnosticView};
use crate::optimize::fields::{collect_fields, field_views, fields_of, FieldDescriptor};
use crate::optimize::inlining::{find_inline_rules, inlined_bodies, inlined_names, refused};
use crate::optimize::left_recursion::{find_left_recursion, left_recursive};
use crate::optimize::pass::InlineRule;
use crate::optimize::stage::{stage_rules, staged_rules, ContextView, Stage, StageContext};
use vstd::prelude::*;

verus! {

/// What a pass hands back.
pub struct Optimized {
    /// The grammar, with its rules rewritten.
    pub grammar: GrammarInfo,
    /// The fields of the rules of the grammar.
    pub fields: Vec<FieldDescriptor>,
    /// What the pass has to remark.
    pub diagnostics: Vec<Diagnostic>,
}

/// True when the two grammars differ in their rules at most.
pub open spec fn same_header(a: GrammarInfo, b: GrammarInfo) -> bool {
    &&& a.name == b.name
    &&& a.url == b.url
    &&& a.is_grammar == b.is_grammar
    &&& a.extensions == b.extensions
    &&& a.ignores == b.ignores
    &&& a.imports == b.imports
    &&& a.rule_prefix == b.rule_prefix
    &&& a.rule_suffix == b.rule_suffix
    &&& a.token_sets == b.token_sets
}

/// The names of the rules that the grammar ignores.
pub open spec fn ignored_names(g: GrammarInfo) -> Seq<Seq<char>> {
    symbol_names(g.ignores@)
}

/// The names of the rules that are kept whatever refers to them: what the
/// grammar ignores, and its extensions.
pub open spec fn kept_names(g: GrammarInfo) -> Seq<Seq<char>> {
    symbol_names(g.ignores@) + symbol_names(g.extensions@)
}

/// An untagged, unmarked reference to the rule `name`.
pub open spec fn rule_ref(name: Seq<char>) -> NodeView {
    NodeView {
        kind: KindView::Rule { name, boxed: false },
        tag: Seq::<char>::empty(),
        remark: false,
    }
}

/// References to the rules `names`.
pub open spec fn rule_refs(names: Seq<Seq<char>>) -> Seq<NodeView> {
    Seq::new(names.len(), |i: int| rule_ref(names[i]))
}

/// What stands for all that is ignored: any number of the one ignored rule,
/// or of a choice between the ignored rules. Nothing where nothing is
/// ignored.
pub open spec fn ignore_marker(names: Seq<Seq<char>>) -> Option<NodeView> {
    if names.len() == 0 {
        None
    } else {
        let base = if names.len() == 1 {
            rule_ref(names[0])
        } else {
            NodeView {
                kind: KindView::Choice { branches: rule_refs(names) },
                tag: Seq::<char>::empty(),
                remark: false,
            }
        };
        Some(
            NodeView {
                kind: KindView::Unary { base: Box::new(base), ops: seq![Operator::Repeats] },
                tag: Seq::<char>::empty(),
                remark: false,
            },
        )
    }
}

/// What the stage `stage` knows of a grammar with the rules `rules` that
/// ignores `ignored`. Only inlining knows the rules to inline.
pub open spec fn stage_context(stage: Stage, rules: Seq<RuleView>, ignored: Seq<Seq<char>>) -> ContextView {
    ContextView {
        inline_names: if stage == Stage::Inline {
            inlined_names(rules, ignored, rules.len())
        } else {
            Seq::<Seq<char>>::empty()
        },
        inline_bodies: if stage == Stage::Inline {
            inlined_bodies(rules, ignored, rules.len())
        } else {
            Seq::<NodeView>::empty()
        },
        ignore: ignore_marker(ignored),
        ignored,
    }
}

/// What the stage makes of the rules of a grammar that ignores `ignored`.
pub open spec fn after_stage(stage: Stage, rules: Seq<RuleView>, ignored: Seq<Seq<char>>) -> Seq<
    RuleView,
> {
    staged_rules(stage, stage_context(stage, rules, ignored), rules)
}

/// True when one of the first `k` of `s` holds a call of a function.
pub open spec fn any_calls(s: Seq<NodeView>, k: nat) -> bool
    decreases s, k,
{
    if k == 0 || k > s.len() {
        false
    } else {
        any_calls(s, (k - 1) as nat) || calls(s[k - 1])
    }
}

/// True when `n` holds a call of a function.
pub open spec fn calls(n: NodeView) -> bool
    decreases n,
{
    match n.kind {
        KindView::Function { .. } => true,
        KindView::Choice { branches } => any_calls(branches, branches.len()),
        KindView::Concat { terms } => any_calls(terms, terms.len()),
        KindView::Unary { base, .. } => calls(*base),
        KindView::Rule { .. } => false,
        KindView::Data { .. } => false,
    }
}

/// True when one of the first `k` branches holds a call of a function.
pub open spec fn any_branch_calls(s: Seq<BranchView>, k: nat) -> bool
    decreases k,
{
    if k == 0 || k > s.len() {
        false
    } else {
        any_branch_calls(s, (k - 1) as nat) || calls(s[k - 1].expression)
    }
}

/// True when the rule holds a call of a function.
pub open spec fn rule_calls(r: RuleView) -> bool {
    match r.body {
        BodyView::Class { term } => calls(term),
        BodyView::Union { branches } => any_branch_calls(branches, branches.len()),
        BodyView::Climb { branches } => any_branch_calls(branches, branches.len()),
    }
}

/// A remark for each of the first `k` rules that holds a call of a
/// function.
pub open spec fn unknown_calls(rules: Seq<RuleView>, k: nat) -> Seq<DiagnosticView>
    decreases k,
{
    if k == 0 || k > rules.len() {
        Seq::<DiagnosticView>::empty()
    } else if rule_calls(rules[k - 1]) {
        unknown_calls(rules, (k - 1) as nat).push(
            DiagnosticView {
                kind: DiagnosticKind::UnknownFunction,
                rule: rules[k - 1].name,
                range: rules[k - 1].range,
                fatal: true,
            },
        )
    } else {
        unknown_calls(rules, (k - 1) as nat)
    }
}

/// What a stage remarks on the rules `before` that it made `after` of.
pub open spec fn stage_notes(
    stage: Stage,
    before: Seq<RuleView>,
    after: Seq<RuleView>,
    ignored: Seq<Seq<char>>,
) -> Seq<DiagnosticView> {
    match stage {
        Stage::Inline => refused(before, ignored, before.len()),
        Stage::Emit => unknown_calls(after, after.len()),
        _ => Seq::<DiagnosticView>::empty(),
    }
}

/// True when one of `nodes` holds a call of a function.
fn row_calls(nodes: &Vec<ExpressionNode>) -> (b: bool)
    ensures
        b == any_calls(node_views(nodes@), nodes@.len()),
    decreases nodes@,
{
    let mut i: usize = 0;
    let mut found = false;
    let ghost views = node_views(nodes@);
    proof {
        lemma_node_views(nodes@);
    }
    while i < nodes.len()
        invariant
            i <= nodes.len(),
            views == node_views(nodes@),
            views.len() == nodes.len(),
            forall|k: int| 0 <= k < nodes.len() ==> (#[trigger] views[k]) == node_view(nodes@[k]),
            found == any_calls(views, i as nat),
        decreases nodes.len() - i,
    {
        if has_call(&nodes[i]) {
            found = true;
        }
        i = i + 1;
    }
    found
}

/// True when `e` holds a call of a function.
pub fn has_call(e: &ExpressionNode) -> (b: bool)
    ensures
        b == calls(e@),
    decreases *e,
{
    match &e.kind {
        ExpressionKind::Function(_) => true,
        ExpressionKind::Choice(c) => {
            proof {
                lemma_node_views(c.branches@);
            }
            row_calls(&c.branches)
        },
        ExpressionKind::Concat(c) => {
            proof {
                lemma_node_views(c.terms@);
            }
            row_calls(&c.terms)
        },
        ExpressionKind::Unary(u) => has_call(&u.base),
        ExpressionKind::Rule(_) => false,
        ExpressionKind::Data(_) => false,
    }
}

/// True when one of `branches` holds a call of a function.
fn branches_call(branches: &Vec<UnionBranch>) -> (b: bool)
    ensures
        b == any_branch_calls(branch_views(branches@), branches@.len()),
{
    let mut i: usize = 0;
    let mut found = false;
    while i < branches.len()
        invariant
            i <= branches.len(),
            found == any_branch_calls(branch_views(branches@), i as nat),
        decreases branches.len() - i,
    {
        if has_call(&branches[i].expression) {
            found = true;
        }
        i = i + 1;
    }
    found
}

/// A remark for each rule that holds a call of a function.
fn find_calls(rules: &RuleMap) -> (notes: Vec<Diagnostic>)
    ensures
        diagnostic_views(notes@) == unknown_calls(rules.rule_views(), rules.rule_views().len()),
{
    let n = rules.rule_count();
    let mut notes: Vec<Diagnostic> = Vec::new();
    let mut i: usize = 0;
    let ghost views = rules.rule_views();
    proof {
        assert(diagnostic_views(notes@) =~= unknown_calls(views, 0));
    }
    while i < n
        invariant
            i <= n,
            n == rules.rules().len(),
            views == rules.rule_views(),
            diagnostic_views(notes@) == unknown_calls(views, i as nat),
        decreases n - i,
    {
        match rules.rule_at(i) {
            Some(rule) => {
                let hit = match &rule.body {
                    GrammarBody::Class { term } => has_call(term),
                    GrammarBody::Union { branches } => branches_call(branches),
                    GrammarBody::Climb { branches } => branches_call(branches),
                };
                if hit {
                    let note = Diagnostic::new(
                        DiagnosticKind::UnknownFunction,
                        rule.name.name.as_str(),
                        rule.range.start,
                        rule.range.end,
                    );
                    let ghost before = diagnostic_views(notes@);
                    notes.push(note);
                    proof {
                        assert(diagnostic_views(notes@) =~= before.push(note@));
                    }
                }
            },
            None => {},
        }
        i = i + 1;
    }
    notes
}

/// The names of a row of symbols.
pub fn names_of_symbols(symbols: &Vec<Symbol>) -> (names: Vec<String>)
    ensures
        string_views(names@) == symbol_names(symbols@),
{
    let mut names: Vec<String> = Vec::new();
    let mut i: usize = 0;
    while i < symbols.len()
        invariant
            i <= symbols.len(),
            names.len() == i,
            forall|k: int| 0 <= k < i ==> names@[k]@ == symbols@[k].name@,
        decreases symbols.len() - i,
    {
        names.push(symbols[i].name.clone());
        i = i + 1;
    }
    proof {
        assert(string_views(names@) =~= symbol_names(symbols@));
    }
    names
}

/// What stands for all that is ignored.
pub fn build_ignore(names: &Vec<String>) -> (r: Option<ExpressionNode>)
    ensures
        match r {
            Some(e) => ignore_marker(string_views(names@)) == Some(e@),
            None => ignore_marker(string_views(names@)) is None,
        },
{
    if names.len() == 0 {
        return None;
    }
    let base = if names.len() == 1 {
        ExpressionNode::rule(names[0].as_str())
    } else {
        let mut refs: Vec<ExpressionNode> = Vec::new();
        let mut i: usize = 0;
        while i < names.len()
            invariant
                i <= names.len(),
                refs.len() == i,
                forall|k: int| 0 <= k < i ==> node_view(refs@[k]) == rule_ref(names@[k]@),
            decreases names.len() - i,
        {
            refs.push(ExpressionNode::rule(names[i].as_str()));
            i = i + 1;
        }
        proof {
            lemma_node_views(refs@);
            assert(node_views(refs@) =~= rule_refs(string_views(names@)));
        }
        ExpressionNode::choice(refs)
    };
    let mut ops: Vec<Operator> = Vec::new();
    ops.push(Operator::Repeats);
    Some(ExpressionNode::new(ExpressionKind::Unary(Box::new(UnaryExpression { base, ops }))))
}

/// Runs one stage over the rules of the grammar.
pub fn run_stage(stage: Stage, g: GrammarInfo) -> (out: Optimized)
    requires
        g.wf(),
    ensures
        out.grammar.wf(),
        same_header(g, out.grammar),
        out.grammar.rule_views() == after_stage(stage, g.rule_views(), ignored_names(g)),
        field_views(out.fields@) == fields_of(
            out.grammar.rule_views(),
            out.grammar.rule_views().len(),
        ),
        diagnostic_views(out.diagnostics@) == stage_notes(
            stage,
            g.rule_views(),
            out.grammar.rule_views(),
            ignored_names(g),
        ),
{
    let GrammarInfo {
        name,
        url,
        is_grammar,
        extensions,
        ignores,
        imports,
        rules,
        rule_prefix,
        rule_suffix,
        token_sets,
    } = g;
    let ignored = names_of_symbols(&ignores);
    let ignore = build_ignore(&ignored);
    let (inline, mut notes): (Vec<InlineRule>, Vec<Diagnostic>) = match stage {
        Stage::Inline => find_inline_rules(&rules, &ignored),
        _ => (Vec::new(), Vec::new()),
    };
    proof {
        if stage != Stage::Inline {
            assert(crate::optimize::pass::inline_names(inline@) =~= Seq::<Seq<char>>::empty());
            assert(crate::optimize::pass::inline_bodies(inline@) =~= Seq::<NodeView>::empty());
            assert(diagnostic_views(notes@) =~= Seq::<DiagnosticView>::empty());
        }
    }
    let ctx = StageContext { inline, ignore, ignored };
    assert(ctx@ == stage_context(stage, rules.rule_views(), symbol_names(ignores@)));
    let next = stage_rules(stage, &ctx, &rules);
    match stage {
        Stage::Emit => {
            notes = find_calls(&next);
        },
        _ => {},
    }
    let fields = collect_fields(&next);
    Optimized {
        grammar: GrammarInfo {
            name,
            url,
            is_grammar,
            extensions,
            ignores,
            imports,
            rules: next,
            rule_prefix,
            rule_suffix,
            token_sets,
        },
        fields,
        diagnostics: notes,
    }
}

/// Brings the expressions of all rules into canonical form.
pub fn refine_rules(g: GrammarInfo) -> (out: Optimized)
    requires
        g.wf(),
    ensures
        out.grammar.wf(),
        same_header(g, out.grammar),
        out.grammar.rule_views() == after_stage(Stage::Refine, g.rule_views(), ignored_names(g)),
        field_views(out.fields@) == fields_of(
            out.grammar.rule_views(),
            out.grammar.rule_views().len(),
        ),
        out.diagnostics@.len() == 0,
{
    let out = run_stage(Stage::Refine, g);
    proof {
        assert(diagnostic_views(out.diagnostics@).len() == out.diagnostics@.len());
    }
    out
}

/// Puts the body of every inlined rule in the place of the references to
/// it, and remarks which hidden rules were not inlined.
pub fn inline_rules(g: GrammarInfo) -> (out: Optimized)
    requires
        g.wf(),
    ensures
        out.grammar.wf(),
        same_header(g, out.grammar),
        out.grammar.rule_views() == after_stage(Stage::Inline, g.rule_views(), ignored_names(g)),
        field_views(out.fields@) == fields_of(
            out.grammar.rule_views(),
            out.grammar.rule_views().len(),
        ),
        diagnostic_views(out.diagnostics@) == refused(
            g.rule_views(),
            ignored_names(g),
            g.rule_views().len(),
        ),
{
    run_stage(Stage::Inline, g)
}

/// Joins what can be matched as one.
pub fn fusion_rules(g: GrammarInfo) -> (out: Optimized)
    requires
        g.wf(),
    ensures
        out.grammar.wf(),
        same_header(g, out.grammar),
        out.grammar.rule_views() == after_stage(Stage::Fuse, g.rule_views(), ignored_names(g)),
        field_views(out.fields@) == fields_of(
            out.grammar.rule_views(),
            out.grammar.rule_views().len(),
        ),
        out.diagnostics@.len() == 0,
{
    let out = run_stage(Stage::Fuse, g);
    proof {
        assert(diagnostic_views(out.diagnostics@).len() == out.diagnostics@.len());
    }
    out
}

/// Takes out the rules that are not live, and remarks each of them.
pub fn eliminate_dead_code(g: GrammarInfo) -> (out: Optimized)
    requires
        g.wf(),
    ensures
        out.grammar.wf(),
        same_header(g, out.grammar),
        out.grammar.rule_views() == kept(
            g.rule_views(),
            live(g.rule_views(), kept_names(g)),
            g.rule_views().len(),
        ),
        field_views(out.fields@) == fields_of(
            out.grammar.rule_views(),
            out.grammar.rule_views().len(),
        ),
        diagnostic_views(out.diagnostics@) == unused(
            g.rule_views(),
            live(g.rule_views(), kept_names(g)),
            g.rule_views().len(),
        ),
{
    let GrammarInfo {
        name,
        url,
        is_grammar,
        extensions,
        ignores,
        imports,
        rules,
        rule_prefix,
        rule_suffix,
        token_sets,
    } = g;
    let mut keep = names_of_symbols(&ignores);
    let mut more = names_of_symbols(&extensions);
    let ghost first = string_views(keep@);
    let ghost second = string_views(more@);
    keep.append(&mut more);
    proof {
        assert(string_views(keep@) =~= first + second);
    }
    let (next, notes) = eliminate(&rules, &keep);
    let fields = collect_fields(&next);
    Optimized {
        grammar: GrammarInfo {
            name,
            url,
            is_grammar,
            extensions,
            ignores,
            imports,
            rules: next,
            rule_prefix,
            rule_suffix,
            token_sets,
        },
        fields,
        diagnostics: notes,
    }
}

/// Puts what is ignored between the terms of the sequences of every rule
/// that is neither atomic nor ignored itself.
pub fn insert_ignore(g: GrammarInfo) -> (out: Optimized)
    requires
        g.wf(),
    ensures
        out.grammar.wf(),
        same_header(g, out.grammar),
        out.grammar.rule_views() == after_stage(Stage::Ignore, g.rule_views(), ignored_names(g)),
        field_views(out.fields@) == fields_of(
            out.grammar.rule_views(),
            out.grammar.rule_views().len(),
        ),
        out.diagnostics@.len() == 0,
{
    let out = run_stage(Stage::Ignore, g);
    proof {
        assert(diagnostic_views(out.diagnostics@).len() == out.diagnostics@.len());
    }
    out
}

/// Takes tags away where a rule asks for it.
pub fn remark_tags(g: GrammarInfo) -> (out: Optimized)
    requires
        g.wf(),
    ensures
        out.grammar.wf(),
        same_header(g, out.grammar),
        out.grammar.rule_views() == after_stage(Stage::Remark, g.rule_views(), ignored_names(g)),
        field_views(out.fields@) == fields_of(
            out.grammar.rule_views(),
            out.grammar.rule_views().len(),
        ),
        out.diagnostics@.len() == 0,
{
    let out = run_stage(Stage::Remark, g);
    proof {
        assert(diagnostic_views(out.diagnostics@).len() == out.diagnostics@.len());
    }
    out
}

/// Puts what the built-in functions stand for in the place of their calls,
/// and remarks every rule in which a call of another function is left.
pub fn emit_function(g: GrammarInfo) -> (out: Optimized)
    requires
        g.wf(),
    ensures
        out.grammar.wf(),
        same_header(g, out.grammar),
        out.grammar.rule_views() == after_stage(Stage::Emit, g.rule_views(), ignored_names(g)),
        field_views(out.fields@) == fields_of(
            out.grammar.rule_views(),
            out.grammar.rule_views().len(),
        ),
        diagnostic_views(out.diagnostics@) == unknown_calls(
            out.grammar.rule_views(),
            out.grammar.rule_views().len(),
        ),
{
    run_stage(Stage::Emit, g)
}

/// What all passes in their order make of the rules of a grammar that
/// ignores `ignored` and keeps `keep`.
pub open spec fn optimized_rules(
    rules: Seq<RuleView>,
    ignored: Seq<Seq<char>>,
    keep: Seq<Seq<char>>,
) -> Seq<RuleView> {
    let refined = after_stage(Stage::Refine, rules, ignored);
    let inlined = after_stage(Stage::Inline, refined, ignored);
    let fused = after_stage(Stage::Fuse, inlined, ignored);
    let alive = kept(fused, live(fused, keep), fused.len());
    let spaced = after_stage(Stage::Ignore, alive, ignored);
    let marked = after_stage(Stage::Remark, spaced, ignored);
    after_stage(Stage::Emit, marked, ignored)
}

/// What all passes in their order remark: the rules that start with
/// themselves, the hidden rules that were not inlined, the rules that were
/// taken out, and the rules with calls of unknown functions.
pub open spec fn optimizer_notes(
    rules: Seq<RuleView>,
    ignored: Seq<Seq<char>>,
    keep: Seq<Seq<char>>,
) -> Seq<DiagnosticView> {
    let refined = after_stage(Stage::Refine, rules, ignored);
    let inlined = after_stage(Stage::Inline, refined, ignored);
    let fused = after_stage(Stage::Fuse, inlined, ignored);
    let last = optimized_rules(rules, ignored, keep);
    left_recursive(rules, rules.len()) + refused(refined, ignored, refined.len()) + unused(
        fused,
        live(fused, keep),
        fused.len(),
    ) + unknown_calls(last, last.len())
}

/// Adds `more` to `notes`.
fn add_notes(notes: &mut Vec<Diagnostic>, more: Vec<Diagnostic>)
    ensures
        diagnostic_views(final(notes)@) == diagnostic_views(old(notes)@) + diagnostic_views(more@),
{
    let mut more = more;
    let ghost a = notes@;
    let ghost b = more@;
    notes.append(&mut more);
    proof {
        assert(diagnostic_views(notes@) =~= diagnostic_views(a) + diagnostic_views(b));
    }
}

/// Runs all passes in their order.
pub fn optimize(g: GrammarInfo) -> (out: Optimized)
    requires
        g.wf(),
    ensures
        out.grammar.wf(),
        same_header(g, out.grammar),
        out.grammar.rule_views() == optimized_rules(g.rule_views(), ignored_names(g), kept_names(g)),
        field_views(out.fields@) == fields_of(
            out.grammar.rule_views(),
            out.grammar.rule_views().len(),
        ),
        diagnostic_views(out.diagnostics@) == optimizer_notes(
            g.rule_views(),
            ignored_names(g),
            kept_names(g),
        ),
{
    let mut notes = find_left_recursion(&g.rules);
    let refined = refine_rules(g);
    let inlined = inline_rules(refined.grammar);
    add_notes(&mut notes, inlined.diagnostics);
    let fused = fusion_rules(inlined.grammar);
    let alive = eliminate_dead_code(fused.grammar);
    add_notes(&mut notes, alive.diagnostics);
    let spaced = insert_ignore(alive.grammar);
    let marked = remark_tags(spaced.grammar);
    let last = emit_function(marked.grammar);
    add_notes(&mut notes, last.diagnostics);
    Optimized { grammar: last.grammar, fields: last.fields, diagnostics: notes }
}

/// True when one of the remarks is fatal.
pub fn has_fatal(notes: &Vec<Diagnostic>) -> (b: bool)
    ensures
        b == exists|i: int| 0 <= i < notes@.len() && (#[trigger] notes@[i]).fatal,
{
    let mut i: usize = 0;
    while i < notes.len()
        invariant
            i <= notes.len(),
            forall|k: int| 0 <= k < i ==> !(#[trigger] notes@[k]).fatal,
        decreases notes.len() - i,
    {
        if notes[i].fatal {
            return true;
        }
        i = i + 1;
    }
    false
}

} // verus!
