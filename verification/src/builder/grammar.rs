//! From the parse tree of a grammar text to the grammar.
//!
//! The statements are read in the order of the text. A grammar statement
//! names the grammar. Every rule goes into the grammar under its name: in
//! the place of an earlier rule of that name, or after all others. A named
//! group also declares a set of tokens: its name, and the names of its
//! members.

use crate::bootstrap::tree::{GroupStatementNode, RootNode, StatementNode};
use crate::builder::fault::{error_views, GrammarError, GrammarErrorView};
use crate::builder::rule::{
    build_class, build_group, build_identifier, build_union, class_errors, class_rule,
    group_errors, group_rules, member_names, rule_views_of, union_rule, union_statement_errors,
};
use crate::ir::grammar::{
    inserted, name_index, names_of, symbol_names, GrammarInfo, RuleMap,
};
use crate::ir::rule::{GrammarRule, RuleView, Symbol};
use crate::strings::same_text;
use vstd::prelude::*;

verus! {

/// The names of a row of rules.
pub open spec fn view_names(rules: Seq<RuleView>) -> Seq<Seq<char>> {
    Seq::new(rules.len(), |i: int| rules[i].name)
}

/// `rules` with `rule` in the place of the first rule of the same name, or
/// after all others where there is none.
pub open spec fn inserted_view(rules: Seq<RuleView>, rule: RuleView) -> Seq<RuleView> {
    let at = name_index(view_names(rules), rule.name);
    if at < rules.len() {
        rules.update(at, rule)
    } else {
        rules.push(rule)
    }
}

/// `rules` with the first `k` of `more` put in, one after the other.
pub open spec fn insert_all(rules: Seq<RuleView>, more: Seq<RuleView>, k: nat) -> Seq<RuleView>
    decreases k,
{
    if k == 0 || k > more.len() {
        rules
    } else {
        inserted_view(insert_all(rules, more, (k - 1) as nat), more[k - 1])
    }
}

/// The rules that a statement declares.
pub open spec fn statement_rules(s: StatementNode) -> Seq<RuleView> {
    match s {
        StatementNode::GrammarStatement(_) => Seq::<RuleView>::empty(),
        StatementNode::ClassStatement(n) => seq![class_rule(n)],
        StatementNode::UnionStatement(n) => seq![union_rule(n)],
        StatementNode::GroupStatement(n) => group_rules(n, n.group_pair@.len()),
    }
}

/// The errors of a statement.
pub open spec fn statement_errors(s: StatementNode) -> Seq<GrammarErrorView> {
    match s {
        StatementNode::GrammarStatement(_) => Seq::<GrammarErrorView>::empty(),
        StatementNode::ClassStatement(n) => class_errors(n),
        StatementNode::UnionStatement(n) => union_statement_errors(n),
        StatementNode::GroupStatement(n) => group_errors(n),
    }
}

/// The rules of the grammar after the first `k` statements.
pub open spec fn built_rules(stmts: Seq<StatementNode>, k: nat) -> Seq<RuleView>
    decreases k,
{
    if k == 0 || k > stmts.len() {
        Seq::<RuleView>::empty()
    } else {
        insert_all(
            built_rules(stmts, (k - 1) as nat),
            statement_rules(stmts[k - 1]),
            statement_rules(stmts[k - 1]).len(),
        )
    }
}

/// The errors of the first `k` statements.
pub open spec fn built_errors(stmts: Seq<StatementNode>, k: nat) -> Seq<GrammarErrorView>
    decreases k,
{
    if k == 0 || k > stmts.len() {
        Seq::<GrammarErrorView>::empty()
    } else {
        built_errors(stmts, (k - 1) as nat) + statement_errors(stmts[k - 1])
    }
}

/// The name that the last grammar statement among the first `k` statements
/// gives to the grammar, with its place.
pub open spec fn built_name(stmts: Seq<StatementNode>, k: nat) -> Option<(Seq<char>, usize, usize)>
    decreases k,
{
    if k == 0 || k > stmts.len() {
        None
    } else {
        match stmts[k - 1] {
            StatementNode::GrammarStatement(n) => Some(
                (n.identifier.text@, n.identifier.start, n.identifier.end),
            ),
            _ => built_name(stmts, (k - 1) as nat),
        }
    }
}

/// A set of tokens: its name, and the names of its members.
pub type TokenSetView = (Seq<char>, Seq<Seq<char>>);

/// Index of the first of `sets` with the name `name`, or their number.
pub open spec fn set_index(sets: Seq<TokenSetView>, name: Seq<char>, k: nat) -> nat
    decreases sets.len() - k,
{
    if k >= sets.len() {
        sets.len()
    } else if sets[k as int].0 == name {
        k
    } else {
        set_index(sets, name, k + 1)
    }
}

/// `sets` with `set` in the place of the first set of the same name, or
/// after all others where there is none.
pub open spec fn set_inserted(sets: Seq<TokenSetView>, set: TokenSetView) -> Seq<TokenSetView> {
    let at = set_index(sets, set.0, 0);
    if at < sets.len() {
        sets.update(at as int, set)
    } else {
        sets.push(set)
    }
}

/// The sets of tokens after the first `k` statements.
pub open spec fn built_sets(stmts: Seq<StatementNode>, k: nat) -> Seq<TokenSetView>
    decreases k,
{
    if k == 0 || k > stmts.len() {
        Seq::<TokenSetView>::empty()
    } else {
        match stmts[k - 1] {
            StatementNode::GroupStatement(n) => if n.identifier is Some {
                set_inserted(
                    built_sets(stmts, (k - 1) as nat),
                    (n.identifier->0.text@, member_names(n, n.group_pair@.len())),
                )
            } else {
                built_sets(stmts, (k - 1) as nat)
            },
            _ => built_sets(stmts, (k - 1) as nat),
        }
    }
}

/// The models of the sets of tokens of a grammar.
pub open spec fn set_views(sets: Seq<(String, Vec<Symbol>)>) -> Seq<TokenSetView> {
    Seq::new(sets.len(), |i: int| (sets[i].0@, symbol_names(sets[i].1@)))
}

/// A grammar, and the errors that were found while it was built.
pub struct Built {
    /// The grammar.
    pub grammar: GrammarInfo,
    /// The errors, in the order of the text.
    pub errors: Vec<GrammarError>,
}

/// Putting a rule in is putting its model in.
pub proof fn lemma_inserted_views(rules: Seq<GrammarRule>, rule: GrammarRule)
    ensures
        rule_views_of(inserted(rules, rule)) == inserted_view(rule_views_of(rules), rule@),
{
    assert(names_of(rules) =~= view_names(rule_views_of(rules)));
    crate::ir::grammar::lemma_name_index(names_of(rules), rule.name.name@);
    assert(rule_views_of(inserted(rules, rule)) =~= inserted_view(rule_views_of(rules), rule@));
}

/// Puts the set of tokens `name` with the members `members` into `sets`.
fn insert_set(sets: &mut Vec<(String, Vec<Symbol>)>, name: String, members: Vec<Symbol>)
    ensures
        set_views(final(sets)@) == set_inserted(
            set_views(old(sets)@),
            (name@, symbol_names(members@)),
        ),
{
    let mut i: usize = 0;
    let ghost views = set_views(sets@);
    while i < sets.len()
        invariant
            i <= sets.len(),
            views == set_views(sets@),
            *sets == *old(sets),
            set_index(views, name@, i as nat) == set_index(views, name@, 0),
        decreases sets.len() - i,
    {
        if same_text(sets[i].0.as_str(), name.as_str()) {
            assert(views[i as int].0 == name@);
            sets.set(i, (name, members));
            proof {
                assert(set_views(sets@) =~= views.update(i as int, (name@, symbol_names(members@))));
            }
            return ;
        }
        assert(views[i as int].0 != name@);
        i = i + 1;
    }
    sets.push((name, members));
    proof {
        assert(set_views(sets@) =~= views.push((name@, symbol_names(members@))));
    }
}

/// Puts the rules `more` into `rules`, one after the other, and hands back
/// their names.
fn insert_rules(rules: &mut RuleMap, more: Vec<GrammarRule>) -> (names: Vec<Symbol>)
    requires
        old(rules).wf(),
    ensures
        final(rules).wf(),
        final(rules).rule_views() == insert_all(
            old(rules).rule_views(),
            rule_views_of(more@),
            more@.len(),
        ),
        symbol_names(names@) == view_names(rule_views_of(more@)),
{
    let mut more = more;
    let ghost all = rule_views_of(more@);
    let ghost first = rules.rule_views();
    let n = more.len();
    let mut names: Vec<Symbol> = Vec::new();
    let mut taken: Vec<GrammarRule> = Vec::new();
    // The rules are taken from the end, so they are turned round first.
    while more.len() > 0
        invariant
            more.len() + taken.len() == n,
            forall|k: int| 0 <= k < more.len() ==> (#[trigger] more@[k])@ == all[k],
            forall|k: int| 0 <= k < taken.len() ==> (#[trigger] taken@[k])@ == all[n - 1 - k],
            all.len() == n,
        decreases more.len(),
    {
        match more.pop() {
            Some(r) => {
                taken.push(r);
            },
            None => {},
        }
    }
    let mut i: usize = 0;
    proof {
        assert(symbol_names(names@) =~= view_names(all).take(0));
    }
    while taken.len() > 0
        invariant
            i + taken.len() == n,
            all.len() == n,
            rules.wf(),
            forall|k: int| 0 <= k < taken.len() ==> (#[trigger] taken@[k])@ == all[n - 1 - k],
            rules.rule_views() == insert_all(first, all, i as nat),
            symbol_names(names@) == view_names(all).take(i as int),
        decreases taken.len(),
    {
        match taken.pop() {
            Some(r) => {
                let ghost before = rules.rules();
                let ghost seen = symbol_names(names@);
                names.push(r.name.duplicate());
                proof {
                    lemma_inserted_views(before, r);
                    assert(rules.rule_views() =~= rule_views_of(before));
                    assert(symbol_names(names@) =~= seen.push(all[i as int].name));
                    assert(view_names(all).take(i + 1) =~= view_names(all).take(i as int).push(
                        all[i as int].name,
                    ));
                }
                rules.insert(r);
                proof {
                    assert(rules.rule_views() =~= rule_views_of(rules.rules()));
                }
                i = i + 1;
            },
            None => {},
        }
    }
    proof {
        assert(view_names(all).take(n as int) =~= view_names(all));
    }
    names
}

/// The names of the first members are the names of the rules that they
/// declare.
proof fn lemma_member_names(n: GroupStatementNode, k: nat)
    requires
        k <= n.group_pair@.len(),
    ensures
        view_names(group_rules(n, k)) == member_names(n, k),
    decreases k,
{
    if k > 0 {
        lemma_member_names(n, (k - 1) as nat);
        lemma_annotated_name(
            crate::builder::rule::base_rule(
                n.group_pair@[k - 1].identifier.text@,
                crate::ir::rule::BodyView::Class {
                    term: crate::builder::rule::or_placeholder(
                        crate::builder::expression::atomic_view(n.group_pair@[k - 1].atomic),
                    ),
                },
                n.group_pair@[k - 1].start,
                n.group_pair@[k - 1].end,
            ),
            n.annotations@,
            n.annotations@.len(),
        );
        assert(view_names(group_rules(n, k)) =~= member_names(n, k));
    } else {
        assert(view_names(group_rules(n, k)) =~= member_names(n, k));
    }
}

/// Annotations leave the name of a rule as it is.
pub proof fn lemma_annotated_name(
    r: RuleView,
    anns: Seq<crate::bootstrap::tree::AnnotationNode>,
    k: nat,
)
    ensures
        crate::builder::rule::annotated(r, anns, k).name == r.name,
    decreases k,
{
    if k > 0 && k <= anns.len() {
        lemma_annotated_name(r, anns, (k - 1) as nat);
    }
}

/// The grammar that the parse tree `root` declares, and the errors that
/// were found in it.
pub fn build_grammar(root: &RootNode) -> (out: Built)
    ensures
        out.grammar.wf(),
        out.grammar.rule_views() == built_rules(root.statement@, root.statement@.len()),
        error_views(out.errors@) == built_errors(root.statement@, root.statement@.len()),
        match built_name(root.statement@, root.statement@.len()) {
            Some(name) => out.grammar.is_grammar && out.grammar.name.name@ == name.0
                && out.grammar.name.range.start == name.1 && out.grammar.name.range.end == name.2,
            None => !out.grammar.is_grammar && out.grammar.name.name@.len() == 0,
        },
        set_views(out.grammar.token_sets@) == built_sets(root.statement@, root.statement@.len()),
        out.grammar.ignores@.len() == 0,
        out.grammar.extensions@.len() == 0,
        out.grammar.imports@.len() == 0,
        out.grammar.url is None,
{
    let mut g = GrammarInfo::new();
    let mut errors: Vec<GrammarError> = Vec::new();
    let stmts = &root.statement;
    let mut i: usize = 0;
    proof {
        assert(g.rule_views() =~= built_rules(stmts@, 0));
        assert(error_views(errors@) =~= built_errors(stmts@, 0));
        assert(set_views(g.token_sets@) =~= built_sets(stmts@, 0));
    }
    while i < stmts.len()
        invariant
            i <= stmts.len(),
            stmts == &root.statement,
            g.wf(),
            g.rule_views() == built_rules(stmts@, i as nat),
            error_views(errors@) == built_errors(stmts@, i as nat),
            match built_name(stmts@, i as nat) {
                Some(name) => g.is_grammar && g.name.name@ == name.0 && g.name.range.start
                    == name.1 && g.name.range.end == name.2,
                None => !g.is_grammar && g.name.name@.len() == 0,
            },
            set_views(g.token_sets@) == built_sets(stmts@, i as nat),
            g.ignores@.len() == 0,
            g.extensions@.len() == 0,
            g.imports@.len() == 0,
            g.url is None,
        decreases stmts.len() - i,
    {
        let ghost before = error_views(errors@);
        match &stmts[i] {
            StatementNode::GrammarStatement(n) => {
                g.name = build_identifier(&n.identifier);
                g.is_grammar = true;
                proof {
                    assert(before + statement_errors(stmts@[i as int]) =~= before);
                }
            },
            StatementNode::ClassStatement(n) => {
                let rule = build_class(n, &mut errors);
                let mut one: Vec<GrammarRule> = Vec::new();
                one.push(rule);
                proof {
                    assert(rule_views_of(one@) =~= statement_rules(stmts@[i as int]));
                }
                let _ = insert_rules(&mut g.rules, one);
            },
            StatementNode::UnionStatement(n) => {
                let rule = build_union(n, &mut errors);
                let mut one: Vec<GrammarRule> = Vec::new();
                one.push(rule);
                proof {
                    assert(rule_views_of(one@) =~= statement_rules(stmts@[i as int]));
                }
                let _ = insert_rules(&mut g.rules, one);
            },
            StatementNode::GroupStatement(n) => {
                let (name, rules) = build_group(n, &mut errors);
                let names = insert_rules(&mut g.rules, rules);
                proof {
                    lemma_member_names(*n, n.group_pair@.len());
                }
                match name {
                    Some(id) => {
                        insert_set(&mut g.token_sets, id.name, names);
                    },
                    None => {},
                }
            },
        }
        i = i + 1;
    }
    Built { grammar: g, errors }
}

} // verus!
