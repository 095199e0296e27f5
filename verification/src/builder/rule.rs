//! From the statements of the parse tree to the rules of a grammar.
//!
//! An error inside a statement does not end the building: the error is
//! kept, the faulty body gives way to an empty sequence, a faulty branch of
//! a union is left out, and the next statement is read.

use crate::bootstrap::tree::{
    AnnotationNode, ClassStatementNode, GroupPairNode, GroupStatementNode, IdentifierNode,
    UnionBranchNode, UnionStatementNode,
};
use crate::builder::expression::{
    atomic_view, build_atomic, build_hard, build_or, gives, hard_view, or_view, plain_node,
};
use crate::builder::fault::{bad_tag, error_views, GrammarError, GrammarErrorView};
use crate::ir::expression::{ExpressionNode, KindView, NodeView};
use crate::ir::rule::{
    branch_views, no_derive, BodyView, BranchView, DeriveView, GrammarBody, GrammarRule, RuleDerive,
    RuleView, Symbol, UnionBranch,
};
use crate::strings::same_text;
use vstd::prelude::*;
use vstd::string::*;

verus! {

/// What a faulty body gives way to: the empty sequence.
pub open spec fn placeholder() -> NodeView {
    plain_node(KindView::Concat { terms: Seq::<NodeView>::empty() })
}

/// The rule `name` with the body `body` over the bytes from `start` up to
/// `end`, with no flag set.
pub open spec fn base_rule(name: Seq<char>, body: BodyView, start: usize, end: usize) -> RuleView {
    RuleView {
        name,
        kind: Seq::<char>::empty(),
        document: Seq::<char>::empty(),
        derives: no_derive(),
        auto_inline: false,
        auto_boxed: false,
        auto_capture: false,
        atomic_rule: false,
        eliminate_unmarked: false,
        eliminate_unnamed: false,
        body,
        range: (start, end),
    }
}

/// What is derived after the argument `arg` of `derive`.
pub open spec fn derive_arg(d: DeriveView, arg: Seq<char>) -> DeriveView {
    if arg == "eq"@ {
        DeriveView { eq: true, ..d }
    } else if arg == "ord"@ {
        DeriveView { ord: true, ..d }
    } else if arg == "hash"@ {
        DeriveView { hash: Some(arg), ..d }
    } else if arg == "debug"@ {
        DeriveView { debug: Some(arg), ..d }
    } else if arg == "display"@ {
        DeriveView { display: Some(arg), ..d }
    } else if arg == "parser"@ {
        DeriveView { parser: Some(arg), ..d }
    } else {
        d
    }
}

/// What is derived after the first `k` arguments of `derive`.
pub open spec fn derive_args(d: DeriveView, args: Seq<String>, k: nat) -> DeriveView
    decreases k,
{
    if k == 0 || k > args.len() {
        d
    } else {
        derive_arg(derive_args(d, args, (k - 1) as nat), args[k - 1]@)
    }
}

/// True when `name` is the name of an annotation.
pub open spec fn is_annotation(name: Seq<char>) -> bool {
    name == "inline"@ || name == "boxed"@ || name == "atomic"@ || name == "capture"@ || name
        == "eliminate_unmarked"@ || name == "eliminate_unnamed"@ || name == "derive"@
}

/// The rule `r` under the annotation `a`.
pub open spec fn annotated_by(r: RuleView, a: AnnotationNode) -> RuleView {
    let name = a.name@;
    if name == "inline"@ {
        RuleView { auto_inline: true, ..r }
    } else if name == "boxed"@ {
        RuleView { auto_boxed: true, ..r }
    } else if name == "atomic"@ {
        RuleView { atomic_rule: true, ..r }
    } else if name == "capture"@ {
        RuleView { auto_capture: true, ..r }
    } else if name == "eliminate_unmarked"@ {
        RuleView { eliminate_unmarked: true, ..r }
    } else if name == "eliminate_unnamed"@ {
        RuleView { eliminate_unnamed: true, ..r }
    } else if name == "derive"@ {
        RuleView { derives: derive_args(r.derives, a.args@, a.args@.len()), ..r }
    } else {
        r
    }
}

/// The rule `r` under the first `k` of the annotations.
pub open spec fn annotated(r: RuleView, anns: Seq<AnnotationNode>, k: nat) -> RuleView
    decreases k,
{
    if k == 0 || k > anns.len() {
        r
    } else {
        annotated_by(annotated(r, anns, (k - 1) as nat), anns[k - 1])
    }
}

/// An error for each of the first `k` annotations whose name is not the
/// name of an annotation.
pub open spec fn annotation_errors(anns: Seq<AnnotationNode>, k: nat) -> Seq<GrammarErrorView>
    decreases k,
{
    if k == 0 || k > anns.len() {
        Seq::<GrammarErrorView>::empty()
    } else if is_annotation(anns[k - 1].name@) {
        annotation_errors(anns, (k - 1) as nat)
    } else {
        annotation_errors(anns, (k - 1) as nat).push(
            bad_tag(anns[k - 1].name@, anns[k - 1].start, anns[k - 1].end),
        )
    }
}

/// The expression of `r`, or the placeholder where `r` is an error.
pub open spec fn or_placeholder(r: Result<NodeView, GrammarErrorView>) -> NodeView {
    match r {
        Ok(n) => n,
        Err(_) => placeholder(),
    }
}

/// The error of `r`, if it is one.
pub open spec fn error_of(r: Result<NodeView, GrammarErrorView>) -> Seq<GrammarErrorView> {
    match r {
        Ok(_) => Seq::<GrammarErrorView>::empty(),
        Err(e) => seq![e],
    }
}

/// The rule that a class statement declares.
pub open spec fn class_rule(n: ClassStatementNode) -> RuleView {
    annotated(
        base_rule(
            n.name.text@,
            BodyView::Class { term: or_placeholder(or_view(n.expression)) },
            n.start,
            n.end,
        ),
        n.annotations@,
        n.annotations@.len(),
    )
}

/// The errors of a class statement: that of its body, and those of its
/// annotations.
pub open spec fn class_errors(n: ClassStatementNode) -> Seq<GrammarErrorView> {
    error_of(or_view(n.expression)) + annotation_errors(n.annotations@, n.annotations@.len())
}

/// The branches that the first `k` branches of a union are built to.
pub open spec fn union_branches(s: Seq<UnionBranchNode>, k: nat) -> Seq<BranchView>
    decreases k,
{
    if k == 0 || k > s.len() {
        Seq::<BranchView>::empty()
    } else {
        match hard_view(s[k - 1].expression) {
            Ok(n) => union_branches(s, (k - 1) as nat).push(
                BranchView {
                    tag: match s[k - 1].branch_tag {
                        Some(id) => Some(id.text@),
                        None => None,
                    },
                    expression: n,
                },
            ),
            Err(_) => union_branches(s, (k - 1) as nat),
        }
    }
}

/// The errors of the first `k` branches of a union.
pub open spec fn union_errors(s: Seq<UnionBranchNode>, k: nat) -> Seq<GrammarErrorView>
    decreases k,
{
    if k == 0 || k > s.len() {
        Seq::<GrammarErrorView>::empty()
    } else {
        union_errors(s, (k - 1) as nat) + error_of(hard_view(s[k - 1].expression))
    }
}

/// The rule that a union statement declares.
pub open spec fn union_rule(n: UnionStatementNode) -> RuleView {
    annotated(
        base_rule(
            n.name.text@,
            BodyView::Union { branches: union_branches(n.union_branch@, n.union_branch@.len()) },
            n.start,
            n.end,
        ),
        n.annotations@,
        n.annotations@.len(),
    )
}

/// The errors of a union statement.
pub open spec fn union_statement_errors(n: UnionStatementNode) -> Seq<GrammarErrorView> {
    union_errors(n.union_branch@, n.union_branch@.len()) + annotation_errors(
        n.annotations@,
        n.annotations@.len(),
    )
}

/// The rule that a member of a group declares, under the annotations of
/// the group.
pub open spec fn member_rule(p: GroupPairNode, anns: Seq<AnnotationNode>) -> RuleView {
    annotated(
        base_rule(
            p.identifier.text@,
            BodyView::Class { term: or_placeholder(atomic_view(p.atomic)) },
            p.start,
            p.end,
        ),
        anns,
        anns.len(),
    )
}

/// The rules that the first `k` members of a group declare.
pub open spec fn group_rules(n: GroupStatementNode, k: nat) -> Seq<RuleView>
    decreases k,
{
    if k == 0 || k > n.group_pair@.len() {
        Seq::<RuleView>::empty()
    } else {
        group_rules(n, (k - 1) as nat).push(member_rule(n.group_pair@[k - 1], n.annotations@))
    }
}

/// The errors of the first `k` members of a group.
pub open spec fn member_errors(n: GroupStatementNode, k: nat) -> Seq<GrammarErrorView>
    decreases k,
{
    if k == 0 || k > n.group_pair@.len() {
        Seq::<GrammarErrorView>::empty()
    } else {
        member_errors(n, (k - 1) as nat) + error_of(atomic_view(n.group_pair@[k - 1].atomic))
    }
}

/// The errors of a group statement: those of its members, and those of its
/// annotations.
pub open spec fn group_errors(n: GroupStatementNode) -> Seq<GrammarErrorView> {
    member_errors(n, n.group_pair@.len()) + annotation_errors(n.annotations@, n.annotations@.len())
}

/// The names of the first `k` members of a group.
pub open spec fn member_names(n: GroupStatementNode, k: nat) -> Seq<Seq<char>>
    decreases k,
{
    if k == 0 || k > n.group_pair@.len() {
        Seq::<Seq<char>>::empty()
    } else {
        member_names(n, (k - 1) as nat).push(n.group_pair@[k - 1].identifier.text@)
    }
}

/// The symbol of an identifier.
pub fn build_identifier(id: &IdentifierNode) -> (s: Symbol)
    ensures
        s.name@ == id.text@,
        s.range.start == id.start,
        s.range.end == id.end,
{
    Symbol::new(id.text.as_str(), id.start, id.end)
}

/// What is derived after the argument `arg` of `derive`.
fn apply_derive(d: RuleDerive, arg: &str) -> (out: RuleDerive)
    ensures
        out@ == derive_arg(d@, arg@),
{
    let mut d = d;
    if same_text(arg, "eq") {
        d.eq = true;
    } else if same_text(arg, "ord") {
        d.ord = true;
    } else if same_text(arg, "hash") {
        d.hash = Some(arg.to_owned());
    } else if same_text(arg, "debug") {
        d.debug = Some(arg.to_owned());
    } else if same_text(arg, "display") {
        d.display = Some(arg.to_owned());
    } else if same_text(arg, "parser") {
        d.parser = Some(arg.to_owned());
    }
    d
}

/// The rule under the annotation `a`.
fn apply_annotation(rule: GrammarRule, a: &AnnotationNode) -> (out: GrammarRule)
    ensures
        out@ == annotated_by(rule@, *a),
{
    let mut rule = rule;
    let name = a.name.as_str();
    if same_text(name, "inline") {
        rule.auto_inline = true;
    } else if same_text(name, "boxed") {
        rule.auto_boxed = true;
    } else if same_text(name, "atomic") {
        rule.atomic_rule = true;
    } else if same_text(name, "capture") {
        rule.auto_capture = true;
    } else if same_text(name, "eliminate_unmarked") {
        rule.eliminate_unmarked = true;
    } else if same_text(name, "eliminate_unnamed") {
        rule.eliminate_unnamed = true;
    } else if same_text(name, "derive") {
        let GrammarRule {
            name,
            kind,
            document,
            derives,
            auto_inline,
            auto_boxed,
            auto_capture,
            atomic_rule,
            eliminate_unmarked,
            eliminate_unnamed,
            body,
            range,
        } = rule;
        let mut d = derives;
        let mut i: usize = 0;
        let ghost first = d@;
        while i < a.args.len()
            invariant
                i <= a.args.len(),
                d@ == derive_args(first, a.args@, i as nat),
            decreases a.args.len() - i,
        {
            d = apply_derive(d, a.args[i].as_str());
            i = i + 1;
        }
        rule = GrammarRule {
            name,
            kind,
            document,
            derives: d,
            auto_inline,
            auto_boxed,
            auto_capture,
            atomic_rule,
            eliminate_unmarked,
            eliminate_unnamed,
            body,
            range,
        };
    }
    rule
}

/// True when `name` is the name of an annotation.
fn known_annotation(name: &str) -> (b: bool)
    ensures
        b == is_annotation(name@),
{
    same_text(name, "inline") || same_text(name, "boxed") || same_text(name, "atomic")
        || same_text(name, "capture") || same_text(name, "eliminate_unmarked") || same_text(
        name,
        "eliminate_unnamed",
    ) || same_text(name, "derive")
}

/// The rule under the annotations.
pub fn with_annotation(rule: GrammarRule, anns: &Vec<AnnotationNode>) -> (out: GrammarRule)
    ensures
        out@ == annotated(rule@, anns@, anns@.len()),
{
    let mut rule = rule;
    let mut i: usize = 0;
    let ghost first = rule@;
    while i < anns.len()
        invariant
            i <= anns.len(),
            rule@ == annotated(first, anns@, i as nat),
        decreases anns.len() - i,
    {
        rule = apply_annotation(rule, &anns[i]);
        i = i + 1;
    }
    rule
}

/// Adds an error to `errors` for each annotation whose name is not the
/// name of an annotation.
pub fn check_annotations(anns: &Vec<AnnotationNode>, errors: &mut Vec<GrammarError>)
    ensures
        error_views(final(errors)@) == error_views(old(errors)@) + annotation_errors(
            anns@,
            anns@.len(),
        ),
{
    let mut i: usize = 0;
    let ghost first = error_views(errors@);
    proof {
        assert(first + annotation_errors(anns@, 0) =~= first);
    }
    while i < anns.len()
        invariant
            i <= anns.len(),
            error_views(errors@) == first + annotation_errors(anns@, i as nat),
        decreases anns.len() - i,
    {
        if !known_annotation(anns[i].name.as_str()) {
            let e = GrammarError::invalid_tag(anns[i].name.as_str(), anns[i].start, anns[i].end);
            let ghost before = error_views(errors@);
            errors.push(e);
            proof {
                assert(error_views(errors@) =~= before.push(e@));
                assert(first + annotation_errors(anns@, (i + 1) as nat) =~= before.push(e@));
            }
        }
        i = i + 1;
    }
}

/// The expression of `r`, or the placeholder and the error in `errors`.
fn settle(r: Result<ExpressionNode, GrammarError>, errors: &mut Vec<GrammarError>, Ghost(model): Ghost<
    Result<NodeView, GrammarErrorView>,
>) -> (out: ExpressionNode)
    requires
        gives(r, model),
    ensures
        out@ == or_placeholder(model),
        error_views(final(errors)@) == error_views(old(errors)@) + error_of(model),
{
    match r {
        Ok(e) => {
            proof {
                assert(error_views(errors@) + Seq::<GrammarErrorView>::empty() =~= error_views(
                    errors@,
                ));
            }
            e
        },
        Err(e) => {
            let ghost before = error_views(errors@);
            errors.push(e);
            proof {
                assert(error_views(errors@) =~= before + seq![e@]);
                crate::ir::expression::lemma_node_views(Seq::<ExpressionNode>::empty());
                assert(crate::ir::expression::node_views(Seq::<ExpressionNode>::empty())
                    =~= Seq::<NodeView>::empty());
            }
            ExpressionNode::concat(Vec::new())
        },
    }
}

/// The rule that a class statement declares. Its errors are added to
/// `errors`.
pub fn build_class(node: &ClassStatementNode, errors: &mut Vec<GrammarError>) -> (rule: GrammarRule)
    ensures
        rule@ == class_rule(*node),
        error_views(final(errors)@) == error_views(old(errors)@) + class_errors(*node),
{
    let ghost first = error_views(errors@);
    let term = settle(build_or(&node.expression), errors, Ghost(or_view(node.expression)));
    let ghost mid = error_views(errors@);
    let name = build_identifier(&node.name);
    let rule = GrammarRule::class(name, term, node.start, node.end);
    check_annotations(&node.annotations, errors);
    proof {
        assert(error_views(errors@) =~= first + class_errors(*node));
    }
    with_annotation(rule, &node.annotations)
}

/// The rule that a member of a group declares, under the annotations of
/// the group. The error of its body is added to `errors`.
pub fn build_class_in_group(
    node: &GroupPairNode,
    anns: &Vec<AnnotationNode>,
    errors: &mut Vec<GrammarError>,
) -> (rule: GrammarRule)
    ensures
        rule@ == member_rule(*node, anns@),
        error_views(final(errors)@) == error_views(old(errors)@) + error_of(
            atomic_view(node.atomic),
        ),
{
    let term = settle(build_atomic(&node.atomic), errors, Ghost(atomic_view(node.atomic)));
    let name = build_identifier(&node.identifier);
    let rule = GrammarRule::class(name, term, node.start, node.end);
    with_annotation(rule, anns)
}

/// The branch that a branch of a union is built to, or its error.
pub fn build_tag_branch(node: &UnionBranchNode) -> (r: Result<UnionBranch, GrammarError>)
    ensures
        match r {
            Ok(b) => hard_view(node.expression) == Ok::<NodeView, GrammarErrorView>(
                b@.expression,
            ) && b@.tag == match node.branch_tag {
                Some(id) => Some(id.text@),
                None => None,
            },
            Err(e) => hard_view(node.expression) == Err::<NodeView, GrammarErrorView>(e@),
        },
{
    let tag = match &node.branch_tag {
        Some(id) => Some(build_identifier(id)),
        None => None,
    };
    match build_hard(&node.expression) {
        Ok(expression) => Ok(UnionBranch { tag, expression }),
        Err(e) => Err(e),
    }
}

/// The rule that a union statement declares. Its errors are added to
/// `errors`.
pub fn build_union(node: &UnionStatementNode, errors: &mut Vec<GrammarError>) -> (rule: GrammarRule)
    ensures
        rule@ == union_rule(*node),
        error_views(final(errors)@) == error_views(old(errors)@) + union_statement_errors(*node),
{
    let ghost first = error_views(errors@);
    let mut branches: Vec<UnionBranch> = Vec::new();
    let mut i: usize = 0;
    let nodes = &node.union_branch;
    proof {
        assert(branch_views(branches@) =~= union_branches(nodes@, 0));
        assert(first + union_errors(nodes@, 0) =~= first);
    }
    while i < nodes.len()
        invariant
            i <= nodes.len(),
            nodes == &node.union_branch,
            branch_views(branches@) == union_branches(nodes@, i as nat),
            error_views(errors@) == first + union_errors(nodes@, i as nat),
        decreases nodes.len() - i,
    {
        match build_tag_branch(&nodes[i]) {
            Ok(b) => {
                let ghost before = branch_views(branches@);
                branches.push(b);
                proof {
                    assert(branch_views(branches@) =~= before.push(b@));
                    assert(first + union_errors(nodes@, (i + 1) as nat) =~= first + union_errors(
                        nodes@,
                        i as nat,
                    ));
                }
            },
            Err(e) => {
                let ghost before = error_views(errors@);
                errors.push(e);
                proof {
                    assert(error_views(errors@) =~= before.push(e@));
                    assert(first + union_errors(nodes@, (i + 1) as nat) =~= before.push(e@));
                }
            },
        }
        i = i + 1;
    }
    let name = build_identifier(&node.name);
    let rule = GrammarRule::with_body(name, GrammarBody::Union { branches }, node.start, node.end);
    check_annotations(&node.annotations, errors);
    proof {
        assert(error_views(errors@) =~= first + union_statement_errors(*node));
    }
    with_annotation(rule, &node.annotations)
}

/// The name of a group, if it has one, and the rules that its members
/// declare. The errors of the group are added to `errors`.
pub fn build_group(node: &GroupStatementNode, errors: &mut Vec<GrammarError>) -> (out: (
    Option<Symbol>,
    Vec<GrammarRule>,
))
    ensures
        match out.0 {
            Some(s) => node.identifier is Some && s.name@ == node.identifier->0.text@,
            None => node.identifier is None,
        },
        rule_views_of(out.1@) == group_rules(*node, node.group_pair@.len()),
        error_views(final(errors)@) == error_views(old(errors)@) + group_errors(*node),
{
    let ghost first = error_views(errors@);
    let name = match &node.identifier {
        Some(id) => Some(build_identifier(id)),
        None => None,
    };
    let mut rules: Vec<GrammarRule> = Vec::new();
    let mut i: usize = 0;
    proof {
        assert(rule_views_of(rules@) =~= group_rules(*node, 0));
        assert(first + member_errors(*node, 0) =~= first);
    }
    while i < node.group_pair.len()
        invariant
            i <= node.group_pair.len(),
            rule_views_of(rules@) == group_rules(*node, i as nat),
            error_views(errors@) == first + member_errors(*node, i as nat),
        decreases node.group_pair.len() - i,
    {
        let ghost before_rules = rule_views_of(rules@);
        let ghost before = error_views(errors@);
        let rule = build_class_in_group(&node.group_pair[i], &node.annotations, errors);
        rules.push(rule);
        proof {
            assert(rule_views_of(rules@) =~= before_rules.push(rule@));
            assert(first + member_errors(*node, (i + 1) as nat) =~= before + error_of(
                atomic_view(node.group_pair@[i as int].atomic),
            ));
        }
        i = i + 1;
    }
    check_annotations(&node.annotations, errors);
    proof {
        assert(error_views(errors@) =~= first + group_errors(*node));
    }
    (name, rules)
}

/// The models of a row of rules.
pub open spec fn rule_views_of(s: Seq<GrammarRule>) -> Seq<RuleView> {
    Seq::new(s.len(), |i: int| s[i]@)
}

} // verus!
