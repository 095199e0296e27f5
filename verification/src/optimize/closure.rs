//! The live rules are closed under reference, and taking out what is not
//! live a second time takes out nothing.
//!
//! The reach of the roots is counted in steps, as many as there are rules.
//! Every step that marks a rule marks one more than were marked, so after
//! that many steps either all rules are marked or a step has marked
//! nothing; either way a further step marks nothing.

use crate::ir::rule::RuleView;
use crate::optimize::analysis::body_refers;
use crate::optimize::dead_code::{is_root, kept, live, reach, reached, roots, step, unused};
use crate::optimize::diagnostic::DiagnosticView;
use vstd::prelude::*;

verus! {

/// Number of marks among the first `k`.
pub open spec fn count_marks(marks: Seq<bool>, k: nat) -> nat
    decreases k,
{
    if k == 0 || k > marks.len() {
        0
    } else {
        count_marks(marks, (k - 1) as nat) + if marks[k - 1] {
            1nat
        } else {
            0nat
        }
    }
}

/// A rule is reached when a marked rule refers to it.
pub proof fn lemma_reached_iff(rules: Seq<RuleView>, marks: Seq<bool>, name: Seq<char>, k: nat)
    requires
        k <= rules.len(),
        k <= marks.len(),
    ensures
        reached(rules, marks, name, k) <==> exists|i: int|
            0 <= i < k && marks[i] && body_refers(#[trigger] rules[i].body, seq![name]),
    decreases k,
{
    if k > 0 {
        lemma_reached_iff(rules, marks, name, (k - 1) as nat);
        if reached(rules, marks, name, k) {
            if reached(rules, marks, name, (k - 1) as nat) {
                let i = choose|i: int|
                    0 <= i < k - 1 && marks[i] && body_refers(#[trigger] rules[i].body, seq![name]);
                assert(0 <= i < k && marks[i] && body_refers(rules[i].body, seq![name]));
            } else {
                assert(marks[k - 1] && body_refers(rules[k - 1].body, seq![name]));
            }
        }
        if exists|i: int|
            0 <= i < k && marks[i] && body_refers(#[trigger] rules[i].body, seq![name]) {
            let i = choose|i: int|
                0 <= i < k && marks[i] && body_refers(#[trigger] rules[i].body, seq![name]);
            if i < k - 1 {
                assert(reached(rules, marks, name, (k - 1) as nat));
            }
        }
    }
}

/// The marks after any number of steps are as many as the rules.
pub proof fn lemma_reach_len(rules: Seq<RuleView>, marks: Seq<bool>, rounds: nat)
    requires
        marks.len() == rules.len(),
    ensures
        reach(rules, marks, rounds).len() == rules.len(),
    decreases rounds,
{
    if rounds > 0 {
        lemma_reach_len(rules, marks, (rounds - 1) as nat);
    }
}

/// What is marked stays marked over further steps.
pub proof fn lemma_reach_grows(rules: Seq<RuleView>, marks: Seq<bool>, a: nat, b: nat, j: int)
    requires
        marks.len() == rules.len(),
        a <= b,
        0 <= j < rules.len(),
        reach(rules, marks, a)[j],
    ensures
        reach(rules, marks, b)[j],
    decreases b - a,
{
    if a < b {
        lemma_reach_grows(rules, marks, a, (b - 1) as nat, j);
        lemma_reach_len(rules, marks, (b - 1) as nat);
    }
}

/// No more are marked than there are.
proof fn lemma_count_bound(marks: Seq<bool>, k: nat)
    requires
        k <= marks.len(),
    ensures
        count_marks(marks, k) <= k,
        count_marks(marks, k) == k ==> forall|i: int| 0 <= i < k ==> marks[i],
    decreases k,
{
    if k > 0 {
        lemma_count_bound(marks, (k - 1) as nat);
    }
}

/// Where every mark of `a` is a mark of `b`, `b` has as many marks, and
/// more where one of its marks is no mark of `a`.
proof fn lemma_count_grows(a: Seq<bool>, b: Seq<bool>, k: nat)
    requires
        k <= a.len(),
        k <= b.len(),
        forall|i: int| 0 <= i < k ==> (a[i] ==> b[i]),
    ensures
        count_marks(a, k) <= count_marks(b, k),
        (exists|i: int| 0 <= i < k && !a[i] && b[i]) ==> count_marks(a, k) < count_marks(b, k),
    decreases k,
{
    if k > 0 {
        lemma_count_grows(a, b, (k - 1) as nat);
        if exists|i: int| 0 <= i < k && !a[i] && b[i] {
            let i = choose|i: int| 0 <= i < k && !a[i] && b[i];
            if i < k - 1 {
                assert(exists|i: int| 0 <= i < k - 1 && !a[i] && b[i]);
            }
        }
    }
}

/// After `k` steps, a step has marked nothing, or `k` rules are marked.
proof fn lemma_progress(rules: Seq<RuleView>, marks: Seq<bool>, k: nat)
    requires
        marks.len() == rules.len(),
    ensures
        step(rules, reach(rules, marks, k)) == reach(rules, marks, k) || count_marks(
            reach(rules, marks, k),
            rules.len(),
        ) >= k,
    decreases k,
{
    let n = rules.len();
    if k > 0 {
        lemma_progress(rules, marks, (k - 1) as nat);
        let before = reach(rules, marks, (k - 1) as nat);
        let now = reach(rules, marks, k);
        lemma_reach_len(rules, marks, (k - 1) as nat);
        lemma_reach_len(rules, marks, k);
        if step(rules, before) == before {
            assert(now == before);
        } else {
            if forall|i: int| 0 <= i < n ==> now[i] == before[i] {
                assert(now =~= before);
            }
            let i = choose|i: int| 0 <= i < n && now[i] != before[i];
            assert(!before[i] && now[i]);
            lemma_count_grows(before, now, n);
        }
    }
}

/// The live rules are closed: a rule that a live rule refers to is live.
pub proof fn lemma_live_closed(rules: Seq<RuleView>, keep: Seq<Seq<char>>)
    ensures
        live(rules, keep).len() == rules.len(),
        step(rules, live(rules, keep)) == live(rules, keep),
{
    let n = rules.len();
    let first = roots(rules, keep);
    let marks = live(rules, keep);
    lemma_progress(rules, first, n);
    lemma_reach_len(rules, first, n);
    if step(rules, marks) != marks {
        lemma_count_bound(marks, n);
        assert(step(rules, marks) =~= marks);
    }
}

/// A rule that a live rule refers to is live.
pub proof fn lemma_live_follows_references(
    rules: Seq<RuleView>,
    keep: Seq<Seq<char>>,
    from: int,
    to: int,
)
    requires
        0 <= from < rules.len(),
        0 <= to < rules.len(),
        live(rules, keep)[from],
        body_refers(rules[from].body, seq![rules[to].name]),
    ensures
        live(rules, keep)[to],
{
    lemma_live_closed(rules, keep);
    let marks = live(rules, keep);
    lemma_reached_iff(rules, marks, rules[to].name, rules.len());
    assert(step(rules, marks)[to]);
}

/// Every root is live.
pub proof fn lemma_roots_live(rules: Seq<RuleView>, keep: Seq<Seq<char>>, j: int)
    requires
        0 <= j < rules.len(),
        is_root(rules[j], keep),
    ensures
        live(rules, keep)[j],
{
    lemma_reach_grows(rules, roots(rules, keep), 0, rules.len(), j);
}

/// Every kept rule is a marked one of the rules.
proof fn lemma_kept_is_marked(rules: Seq<RuleView>, marks: Seq<bool>, k: nat, x: int)
    requires
        k <= rules.len(),
        k <= marks.len(),
        0 <= x < kept(rules, marks, k).len(),
    ensures
        exists|i: int| 0 <= i < k && marks[i] && #[trigger] rules[i] == kept(rules, marks, k)[x],
    decreases k,
{
    if k > 0 {
        if marks[k - 1] {
            if x < kept(rules, marks, (k - 1) as nat).len() {
                lemma_kept_is_marked(rules, marks, (k - 1) as nat, x);
                let i = choose|i: int|
                    0 <= i < k - 1 && marks[i] && #[trigger] rules[i] == kept(
                        rules,
                        marks,
                        (k - 1) as nat,
                    )[x];
                assert(marks[i] && rules[i] == kept(rules, marks, k)[x]);
            } else {
                assert(marks[k - 1] && rules[k - 1] == kept(rules, marks, k)[x]);
            }
        } else {
            lemma_kept_is_marked(rules, marks, (k - 1) as nat, x);
            let i = choose|i: int|
                0 <= i < k - 1 && marks[i] && #[trigger] rules[i] == kept(
                    rules,
                    marks,
                    (k - 1) as nat,
                )[x];
            assert(marks[i] && rules[i] == kept(rules, marks, k)[x]);
        }
    }
}

/// Every marked rule is kept.
proof fn lemma_marked_is_kept(rules: Seq<RuleView>, marks: Seq<bool>, k: nat, i: int)
    requires
        k <= rules.len(),
        k <= marks.len(),
        0 <= i < k,
        marks[i],
    ensures
        exists|x: int|
            0 <= x < kept(rules, marks, k).len() && #[trigger] kept(rules, marks, k)[x] == rules[i],
    decreases k,
{
    if i < k - 1 {
        lemma_marked_is_kept(rules, marks, (k - 1) as nat, i);
        let x = choose|x: int|
            0 <= x < kept(rules, marks, (k - 1) as nat).len() && #[trigger] kept(
                rules,
                marks,
                (k - 1) as nat,
            )[x] == rules[i];
        assert(kept(rules, marks, k)[x] == rules[i]);
    } else {
        let x = kept(rules, marks, k).len() - 1;
        assert(kept(rules, marks, k)[x] == rules[i]);
    }
}

/// Where all rules are marked, all are kept and none is remarked.
proof fn lemma_kept_all(rules: Seq<RuleView>, marks: Seq<bool>, k: nat)
    requires
        k <= rules.len(),
        k <= marks.len(),
        forall|i: int| 0 <= i < k ==> marks[i],
    ensures
        kept(rules, marks, k) == rules.take(k as int),
        unused(rules, marks, k) == Seq::<DiagnosticView>::empty(),
    decreases k,
{
    if k > 0 {
        lemma_kept_all(rules, marks, (k - 1) as nat);
        assert(rules.take(k as int) =~= rules.take(k - 1).push(rules[k - 1]));
    } else {
        assert(rules.take(0) =~= Seq::<RuleView>::empty());
    }
}

/// Every rule that is marked among the rules after `t` steps is live among
/// the kept rules, wherever it stands among them.
proof fn lemma_kept_live(rules: Seq<RuleView>, keep: Seq<Seq<char>>, t: nat, i: int, x: int)
    requires
        t <= rules.len(),
        0 <= i < rules.len(),
        reach(rules, roots(rules, keep), t)[i],
        0 <= x < kept(rules, live(rules, keep), rules.len()).len(),
        kept(rules, live(rules, keep), rules.len())[x] == rules[i],
    ensures
        live(kept(rules, live(rules, keep), rules.len()), keep)[x],
    decreases t,
{
    let n = rules.len();
    let marks = live(rules, keep);
    let k = kept(rules, marks, n);
    let first = roots(rules, keep);
    lemma_live_closed(rules, keep);
    if t == 0 {
        lemma_roots_live(k, keep, x);
    } else {
        let before = reach(rules, first, (t - 1) as nat);
        lemma_reach_len(rules, first, (t - 1) as nat);
        if before[i] {
            lemma_kept_live(rules, keep, (t - 1) as nat, i, x);
        } else {
            lemma_reached_iff(rules, before, rules[i].name, n);
            let h = choose|h: int|
                0 <= h < n && before[h] && body_refers(
                    #[trigger] rules[h].body,
                    seq![rules[i].name],
                );
            lemma_reach_grows(rules, first, (t - 1) as nat, n, h);
            lemma_marked_is_kept(rules, marks, n, h);
            let y = choose|y: int| 0 <= y < k.len() && #[trigger] k[y] == rules[h];
            lemma_kept_live(rules, keep, (t - 1) as nat, h, y);
            lemma_live_follows_references(k, keep, y, x);
        }
    }
}

/// Taking out what is not live a second time takes out nothing, and
/// remarks nothing.
pub proof fn lemma_eliminate_idempotent(rules: Seq<RuleView>, keep: Seq<Seq<char>>)
    ensures
        ({
            let once = kept(rules, live(rules, keep), rules.len());
            &&& kept(once, live(once, keep), once.len()) == once
            &&& unused(once, live(once, keep), once.len()) == Seq::<DiagnosticView>::empty()
        }),
{
    let n = rules.len();
    let marks = live(rules, keep);
    let once = kept(rules, marks, n);
    lemma_live_closed(rules, keep);
    lemma_live_closed(once, keep);
    let again = live(once, keep);
    assert forall|x: int| 0 <= x < once.len() implies again[x] by {
        lemma_kept_is_marked(rules, marks, n, x);
        let i = choose|i: int| 0 <= i < n && marks[i] && #[trigger] rules[i] == once[x];
        lemma_kept_live(rules, keep, n, i, x);
    }
    lemma_kept_all(once, again, once.len());
    assert(once.take(once.len() as int) =~= once);
}

} // verus!
