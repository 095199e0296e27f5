//! Taking out the rules that nothing refers to.
//!
//! A rule is a root when it is not hidden, or when the grammar ignores it or
//! names it among its extensions. A rule is live when it is a root, or when a
//! live rule refers to it. Rules that are not live are taken out.

use crate::ir::grammar::RuleMap;
use crate::ir::rule::RuleView;
use crate::optimize::analysis::{
    body_refers, body_refers_to, contains_name, hidden, is_hidden, string_views,
};
use crate::optimize::diagnostic::{Diagnostic, DiagnosticKind, DiagnosticView};
use crate::optimize::stage::lemma_inserted_new;
use vstd::prelude::*;

verus! {

/// True when the rule is kept whatever refers to it.
pub open spec fn is_root(r: RuleView, keep: Seq<Seq<char>>) -> bool {
    !is_hidden(r) || keep.contains(r.name)
}

/// For every rule, whether it is a root.
pub open spec fn roots(rules: Seq<RuleView>, keep: Seq<Seq<char>>) -> Seq<bool> {
    Seq::new(rules.len(), |j: int| is_root(rules[j], keep))
}

/// True when one of the first `k` rules is marked and refers to `name`.
pub open spec fn reached(rules: Seq<RuleView>, marks: Seq<bool>, name: Seq<char>, k: nat) -> bool
    decreases k,
{
    if k == 0 || k > rules.len() || k > marks.len() {
        false
    } else {
        reached(rules, marks, name, (k - 1) as nat) || (marks[k - 1] && body_refers(
            rules[k - 1].body,
            seq![name],
        ))
    }
}

/// The marks after one more step: a rule is marked when it was, or when a
/// marked rule refers to it.
pub open spec fn step(rules: Seq<RuleView>, marks: Seq<bool>) -> Seq<bool> {
    Seq::new(
        rules.len(),
        |j: int| (j < marks.len() && marks[j]) || reached(rules, marks, rules[j].name, rules.len()),
    )
}

/// The marks after `rounds` steps.
pub open spec fn reach(rules: Seq<RuleView>, marks: Seq<bool>, rounds: nat) -> Seq<bool>
    decreases rounds,
{
    if rounds == 0 {
        marks
    } else {
        step(rules, reach(rules, marks, (rounds - 1) as nat))
    }
}

/// For every rule, whether it is live: the roots, and what is reached from
/// them in as many steps as there are rules.
pub open spec fn live(rules: Seq<RuleView>, keep: Seq<Seq<char>>) -> Seq<bool> {
    reach(rules, roots(rules, keep), rules.len())
}

/// The marked ones of the first `k` rules.
pub open spec fn kept(rules: Seq<RuleView>, marks: Seq<bool>, k: nat) -> Seq<RuleView>
    decreases k,
{
    if k == 0 || k > rules.len() || k > marks.len() {
        Seq::<RuleView>::empty()
    } else if marks[k - 1] {
        kept(rules, marks, (k - 1) as nat).push(rules[k - 1])
    } else {
        kept(rules, marks, (k - 1) as nat)
    }
}

/// A remark for each of the first `k` rules that is not marked.
pub open spec fn unused(rules: Seq<RuleView>, marks: Seq<bool>, k: nat) -> Seq<DiagnosticView>
    decreases k,
{
    if k == 0 || k > rules.len() || k > marks.len() {
        Seq::<DiagnosticView>::empty()
    } else if marks[k - 1] {
        unused(rules, marks, (k - 1) as nat)
    } else {
        unused(rules, marks, (k - 1) as nat).push(
            DiagnosticView {
                kind: DiagnosticKind::UnusedRule,
                rule: rules[k - 1].name,
                range: rules[k - 1].range,
                fatal: false,
            },
        )
    }
}

/// For every rule, whether it is a root.
fn find_roots(rules: &RuleMap, keep: &Vec<String>) -> (marks: Vec<bool>)
    ensures
        marks@ == roots(rules.rule_views(), string_views(keep@)),
{
    let n = rules.rule_count();
    let mut marks: Vec<bool> = Vec::new();
    let mut j: usize = 0;
    while j < n
        invariant
            j <= n,
            n == rules.rules().len(),
            marks.len() == j,
            forall|k: int|
                0 <= k < j ==> marks@[k] == is_root(rules.rule_views()[k], string_views(keep@)),
        decreases n - j,
    {
        match rules.rule_at(j) {
            Some(rule) => {
                let root = !hidden(rule) || contains_name(keep, rule.name.name.as_str());
                marks.push(root);
            },
            None => {
                marks.push(false);
            },
        }
        j = j + 1;
    }
    proof {
        assert(marks@ =~= roots(rules.rule_views(), string_views(keep@)));
    }
    marks
}

/// The marks after one more step.
fn step_marks(rules: &RuleMap, marks: &Vec<bool>) -> (next: Vec<bool>)
    requires
        marks.len() == rules.rules().len(),
    ensures
        next@ == step(rules.rule_views(), marks@),
{
    let n = rules.rule_count();
    let mut next: Vec<bool> = Vec::new();
    let mut j: usize = 0;
    let ghost views = rules.rule_views();
    while j < n
        invariant
            j <= n,
            n == rules.rules().len(),
            marks.len() == n,
            views == rules.rule_views(),
            next.len() == j,
            forall|k: int|
                0 <= k < j ==> next@[k] == (marks@[k] || reached(
                    views,
                    marks@,
                    views[k].name,
                    n as nat,
                )),
        decreases n - j,
    {
        let mut flag = marks[j];
        if !flag {
            match rules.rule_at(j) {
                Some(target) => {
                    let mut names: Vec<String> = Vec::new();
                    names.push(target.name.name.clone());
                    proof {
                        assert(string_views(names@) =~= seq![views[j as int].name]);
                    }
                    let mut i: usize = 0;
                    while i < n
                        invariant
                            i <= n,
                            n == rules.rules().len(),
                            marks.len() == n,
                            views == rules.rule_views(),
                            string_views(names@) == seq![views[j as int].name],
                            j < n,
                            flag == reached(views, marks@, views[j as int].name, i as nat),
                        decreases n - i,
                    {
                        if marks[i] {
                            match rules.rule_at(i) {
                                Some(rule) => {
                                    if body_refers_to(&rule.body, &names) {
                                        flag = true;
                                    }
                                },
                                None => {},
                            }
                        }
                        i = i + 1;
                    }
                },
                None => {},
            }
        }
        next.push(flag);
        j = j + 1;
    }
    proof {
        assert(next@ =~= step(views, marks@));
    }
    next
}

/// For every rule, whether it is live.
pub fn find_live(rules: &RuleMap, keep: &Vec<String>) -> (marks: Vec<bool>)
    ensures
        marks@ == live(rules.rule_views(), string_views(keep@)),
        marks.len() == rules.rules().len(),
{
    let n = rules.rule_count();
    let mut marks = find_roots(rules, keep);
    let mut round: usize = 0;
    let ghost first = marks@;
    while round < n
        invariant
            round <= n,
            n == rules.rules().len(),
            marks.len() == n,
            first == roots(rules.rule_views(), string_views(keep@)),
            marks@ == reach(rules.rule_views(), first, round as nat),
        decreases n - round,
    {
        marks = step_marks(rules, &marks);
        round = round + 1;
    }
    marks
}

/// Every kept rule is one of the first rules.
proof fn lemma_kept_from(rules: Seq<RuleView>, marks: Seq<bool>, k: nat, x: int)
    requires
        k <= rules.len(),
        k <= marks.len(),
        0 <= x < kept(rules, marks, k).len(),
    ensures
        exists|i: int| 0 <= i < k && rules[i] == kept(rules, marks, k)[x],
    decreases k,
{
    if k > 0 {
        if marks[k - 1] {
            if x < kept(rules, marks, (k - 1) as nat).len() {
                lemma_kept_from(rules, marks, (k - 1) as nat, x);
            } else {
                assert(rules[k - 1] == kept(rules, marks, k)[x]);
            }
        } else {
            lemma_kept_from(rules, marks, (k - 1) as nat, x);
        }
    }
}

/// The rules without those that are not live, and a remark for each rule
/// that was taken out.
pub fn eliminate(rules: &RuleMap, keep: &Vec<String>) -> (out: (RuleMap, Vec<Diagnostic>))
    requires
        rules.wf(),
    ensures
        out.0.wf(),
        out.0.rule_views() == kept(
            rules.rule_views(),
            live(rules.rule_views(), string_views(keep@)),
            rules.rule_views().len(),
        ),
        crate::optimize::diagnostic::diagnostic_views(out.1@) == unused(
            rules.rule_views(),
            live(rules.rule_views(), string_views(keep@)),
            rules.rule_views().len(),
        ),
{
    let marks = find_live(rules, keep);
    let n = rules.rule_count();
    let mut result = RuleMap::new();
    let mut notes: Vec<Diagnostic> = Vec::new();
    let mut i: usize = 0;
    let ghost views = rules.rule_views();
    proof {
        rules.lemma_names_unique();
        assert(result.rule_views() =~= kept(views, marks@, 0));
        assert(crate::optimize::diagnostic::diagnostic_views(notes@) =~= unused(views, marks@, 0));
    }
    while i < n
        invariant
            i <= n,
            n == rules.rules().len(),
            marks.len() == n,
            rules.wf(),
            result.wf(),
            views == rules.rule_views(),
            result.rule_views() == kept(views, marks@, i as nat),
            crate::optimize::diagnostic::diagnostic_views(notes@) == unused(
                views,
                marks@,
                i as nat,
            ),
            forall|a: int, b: int|
                0 <= a < b < rules.rules().len() ==> (#[trigger] rules.rules()[a]).name.name@ != (
                #[trigger] rules.rules()[b]).name.name@,
        decreases n - i,
    {
        match rules.rule_at(i) {
            Some(rule) => {
                if marks[i] {
                    let copy = rule.duplicate();
                    proof {
                        let so_far = kept(views, marks@, i as nat);
                        assert forall|k: int| 0 <= k < result.rules().len() implies (
                        #[trigger] result.rules()[k]).name.name@ != copy.name.name@ by {
                            lemma_kept_from(views, marks@, i as nat, k);
                            let src = choose|s: int| 0 <= s < i && views[s] == so_far[k];
                            assert(result.rule_views()[k] == so_far[k]);
                            assert(views[src].name == rules.rules()[src].name.name@);
                            assert(rules.rules()[src].name.name@ != rules.rules()[i as int].name.name@);
                        }
                        lemma_inserted_new(result.rules(), copy);
                    }
                    let ghost before = result.rule_views();
                    result.insert(copy);
                    proof {
                        assert(result.rule_views() =~= before.push(views[i as int]));
                    }
                } else {
                    let note = Diagnostic::new(
                        DiagnosticKind::UnusedRule,
                        rule.name.name.as_str(),
                        rule.range.start,
                        rule.range.end,
                    );
                    let ghost before = crate::optimize::diagnostic::diagnostic_views(notes@);
                    notes.push(note);
                    proof {
                        assert(crate::optimize::diagnostic::diagnostic_views(notes@)
                            =~= before.push(note@));
                    }
                }
            },
            None => {},
        }
        i = i + 1;
    }
    (result, notes)
}

} // verus!
