//! Which rules are inlined.
//!
//! A rule is a candidate when it is hidden, has one expression as its body,
//! and is not ignored by the grammar. A candidate is inlined when its body
//! refers to no candidate, itself included; any other candidate stays a
//! rule of its own, and a remark says so. Inlining rewrites the rules that
//! are no candidates and leaves the candidates as they are.

use crate::ir::expression::NodeView;
use crate::ir::grammar::RuleMap;
use crate::ir::rule::{GrammarBody, GrammarRule, RuleView};
use crate::optimize::analysis::{
    body_refers, body_refers_to, contains_name, hidden, is_hidden, string_views,
};
use crate::optimize::diagnostic::{diagnostic_views, Diagnostic, DiagnosticKind, DiagnosticView};
use crate::optimize::pass::{inline_bodies, inline_names, InlineRule};
use vstd::prelude::*;

verus! {

/// True when the rule may be inlined as far as it alone is concerned.
pub open spec fn is_candidate(r: RuleView, ignored: Seq<Seq<char>>) -> bool {
    is_hidden(r) && r.body is Class && !ignored.contains(r.name)
}

/// The names of the candidates among the first `k` rules.
pub open spec fn candidates(rules: Seq<RuleView>, ignored: Seq<Seq<char>>, k: nat) -> Seq<Seq<char>>
    decreases k,
{
    if k == 0 || k > rules.len() {
        Seq::<Seq<char>>::empty()
    } else if is_candidate(rules[k - 1], ignored) {
        candidates(rules, ignored, (k - 1) as nat).push(rules[k - 1].name)
    } else {
        candidates(rules, ignored, (k - 1) as nat)
    }
}

/// True when the rule `r` of `rules` is inlined.
pub open spec fn is_inlined(rules: Seq<RuleView>, ignored: Seq<Seq<char>>, r: RuleView) -> bool {
    is_candidate(r, ignored) && !body_refers(r.body, candidates(rules, ignored, rules.len()))
}

/// The names of the inlined rules among the first `k` rules.
pub open spec fn inlined_names(rules: Seq<RuleView>, ignored: Seq<Seq<char>>, k: nat) -> Seq<
    Seq<char>,
>
    decreases k,
{
    if k == 0 || k > rules.len() {
        Seq::<Seq<char>>::empty()
    } else if is_inlined(rules, ignored, rules[k - 1]) {
        inlined_names(rules, ignored, (k - 1) as nat).push(rules[k - 1].name)
    } else {
        inlined_names(rules, ignored, (k - 1) as nat)
    }
}

/// The bodies of the inlined rules among the first `k` rules.
pub open spec fn inlined_bodies(rules: Seq<RuleView>, ignored: Seq<Seq<char>>, k: nat) -> Seq<
    NodeView,
>
    decreases k,
{
    if k == 0 || k > rules.len() {
        Seq::<NodeView>::empty()
    } else if is_inlined(rules, ignored, rules[k - 1]) {
        inlined_bodies(rules, ignored, (k - 1) as nat).push(rules[k - 1].body->term)
    } else {
        inlined_bodies(rules, ignored, (k - 1) as nat)
    }
}

/// A remark for each candidate among the first `k` rules that is not
/// inlined.
pub open spec fn refused(rules: Seq<RuleView>, ignored: Seq<Seq<char>>, k: nat) -> Seq<
    DiagnosticView,
>
    decreases k,
{
    if k == 0 || k > rules.len() {
        Seq::<DiagnosticView>::empty()
    } else if is_candidate(rules[k - 1], ignored) && !is_inlined(rules, ignored, rules[k - 1]) {
        refused(rules, ignored, (k - 1) as nat).push(
            DiagnosticView {
                kind: DiagnosticKind::InlineRefused,
                rule: rules[k - 1].name,
                range: rules[k - 1].range,
                fatal: false,
            },
        )
    } else {
        refused(rules, ignored, (k - 1) as nat)
    }
}

/// True when the rule may be inlined as far as it alone is concerned.
pub fn candidate(r: &GrammarRule, ignored: &Vec<String>) -> (b: bool)
    ensures
        b == is_candidate(r@, string_views(ignored@)),
{
    let class = match &r.body {
        GrammarBody::Class { .. } => true,
        _ => false,
    };
    class && hidden(r) && !contains_name(ignored, r.name.name.as_str())
}

/// The names of the candidates.
fn find_candidates(rules: &RuleMap, ignored: &Vec<String>) -> (names: Vec<String>)
    ensures
        string_views(names@) == candidates(
            rules.rule_views(),
            string_views(ignored@),
            rules.rule_views().len(),
        ),
{
    let n = rules.rule_count();
    let mut names: Vec<String> = Vec::new();
    let mut i: usize = 0;
    let ghost views = rules.rule_views();
    proof {
        assert(string_views(names@) =~= candidates(views, string_views(ignored@), 0));
    }
    while i < n
        invariant
            i <= n,
            n == rules.rules().len(),
            views == rules.rule_views(),
            string_views(names@) == candidates(views, string_views(ignored@), i as nat),
        decreases n - i,
    {
        match rules.rule_at(i) {
            Some(rule) => {
                if candidate(rule, ignored) {
                    let ghost before = string_views(names@);
                    names.push(rule.name.name.clone());
                    proof {
                        assert(string_views(names@) =~= before.push(views[i as int].name));
                    }
                }
            },
            None => {},
        }
        i = i + 1;
    }
    names
}

/// The rules that are inlined, and a remark for each candidate that is not.
pub fn find_inline_rules(rules: &RuleMap, ignored: &Vec<String>) -> (out: (
    Vec<InlineRule>,
    Vec<Diagnostic>,
))
    ensures
        inline_names(out.0@) == inlined_names(
            rules.rule_views(),
            string_views(ignored@),
            rules.rule_views().len(),
        ),
        inline_bodies(out.0@) == inlined_bodies(
            rules.rule_views(),
            string_views(ignored@),
            rules.rule_views().len(),
        ),
        diagnostic_views(out.1@) == refused(
            rules.rule_views(),
            string_views(ignored@),
            rules.rule_views().len(),
        ),
{
    let names = find_candidates(rules, ignored);
    let n = rules.rule_count();
    let mut found: Vec<InlineRule> = Vec::new();
    let mut notes: Vec<Diagnostic> = Vec::new();
    let mut i: usize = 0;
    let ghost views = rules.rule_views();
    let ghost ig = string_views(ignored@);
    proof {
        assert(inline_names(found@) =~= inlined_names(views, ig, 0));
        assert(inline_bodies(found@) =~= inlined_bodies(views, ig, 0));
        assert(diagnostic_views(notes@) =~= refused(views, ig, 0));
    }
    while i < n
        invariant
            i <= n,
            n == rules.rules().len(),
            views == rules.rule_views(),
            ig == string_views(ignored@),
            string_views(names@) == candidates(views, ig, views.len()),
            inline_names(found@) == inlined_names(views, ig, i as nat),
            inline_bodies(found@) == inlined_bodies(views, ig, i as nat),
            diagnostic_views(notes@) == refused(views, ig, i as nat),
        decreases n - i,
    {
        match rules.rule_at(i) {
            Some(rule) => {
                if candidate(rule, ignored) {
                    if body_refers_to(&rule.body, &names) {
                        let note = Diagnostic::new(
                            DiagnosticKind::InlineRefused,
                            rule.name.name.as_str(),
                            rule.range.start,
                            rule.range.end,
                        );
                        let ghost before = diagnostic_views(notes@);
                        notes.push(note);
                        proof {
                            assert(diagnostic_views(notes@) =~= before.push(note@));
                        }
                    } else {
                        match &rule.body {
                            GrammarBody::Class { term } => {
                                let entry = InlineRule {
                                    name: rule.name.name.clone(),
                                    body: term.duplicate(),
                                };
                                let ghost n0 = inline_names(found@);
                                let ghost b0 = inline_bodies(found@);
                                found.push(entry);
                                proof {
                                    assert(inline_names(found@) =~= n0.push(views[i as int].name));
                                    assert(inline_bodies(found@) =~= b0.push(
                                        views[i as int].body->term,
                                    ));
                                }
                            },
                            _ => {},
                        }
                    }
                }
            },
            None => {},
        }
        i = i + 1;
    }
    (found, notes)
}

} // verus!
