//! The head of a grammar text: its statements up to the first rule.
//!
//! A program is a row of statements. A statement is a lone `;`, or
//! `grammar!` or `import!` with or without a `;` behind it. A symbol is a
//! code point that may start an identifier and any number of code points
//! that may continue one.

use crate::position::occurs_at;
use crate::state::{
    follows, is_parser, lemma_follows_chain, lemma_repeat_scans, opened, repeat_ends, rule_closed,
    runs, scan_end, Atomicity, Either, State,
};
use vstd::string::*;
use crate::text::{byte_len, char_index};
use crate::token::{is_pair, pair_end, TokenQueue};
use vstd::prelude::*;

verus! {

/// The rules of the head of a grammar text.
#[allow(non_camel_case_types)]
#[derive(Clone, Copy, Debug, PartialEq, Eq, Structural)]
pub enum Rule {
    /// The end of the input.
    EOI,
    /// The whole text.
    program,
    /// One statement.
    statement,
    /// A lone `;`.
    empty_statement,
    /// `;`
    eos,
    /// `grammar!`
    grammar_statement,
    /// `import!`
    import_statement,
    /// An identifier.
    SYMBOL,
    /// What stands between the parts of a statement.
    WHITESPACE,
    /// A comment.
    COMMENT,
    /// Spaces and tabs.
    WHITE_SPACE,
    /// The end of a line.
    NEWLINE,
}

/// The state of a parse of the head of a grammar text.
pub type RuleState<'i> = State<'i, Rule>;

/// What a parser of the head of a grammar text hands back.
pub type RuleResult<'i> = Either<State<'i, Rule>>;

/// True when `c` has the Unicode property `XID_Start`, by the tables of
/// `pest`.
pub uninterp spec fn xid_start(c: char) -> bool;

/// True when `c` has the Unicode property `XID_Continue`, by the tables of
/// `pest`.
pub uninterp spec fn xid_continue(c: char) -> bool;

/// `pest::unicode::XID_START`: whether `c` may start an identifier.
#[verifier::external_body]
fn is_xid_start(c: char) -> (b: bool)
    ensures
        b == xid_start(c),
{
    pest::unicode::XID_START(c)
}

/// `pest::unicode::XID_CONTINUE`: whether `c` may continue an identifier.
#[verifier::external_body]
fn is_xid_continue(c: char) -> (b: bool)
    ensures
        b == xid_continue(c),
{
    pest::unicode::XID_CONTINUE(c)
}

/// True when the text `word` stands at the cursor of `s`.
pub open spec fn at_word<'i>(s: State<'i, Rule>, word: Seq<char>) -> bool {
    occurs_at(s.text(), s.position().index(), word)
}

/// True when a statement stands at the cursor of `s`.
pub open spec fn at_statement<'i>(s: State<'i, Rule>) -> bool {
    at_word(s, ";"@) || at_word(s, "grammar!"@) || at_word(s, "import!"@)
}

/// True when a code point that may start an identifier stands at the
/// cursor of `s`.
pub open spec fn at_symbol<'i>(s: State<'i, Rule>) -> bool {
    s.position().remaining().len() > 0 && xid_start(s.position().remaining()[0])
}

/// Number of code points before the cursor of `s`.
pub open spec fn place<'i>(s: State<'i, Rule>) -> int {
    s.position().index()
}

/// Number of code points of the `;` at the index `at` of `text`, if one
/// stands there.
pub open spec fn eos_len(text: Seq<char>, at: int) -> int {
    if occurs_at(text, at, ";"@) {
        ";"@.len() as int
    } else {
        0
    }
}

/// Number of code points of `word` at the index `at` of `text` and of the
/// `;` behind it, if one stands there.
pub open spec fn line_len(text: Seq<char>, at: int, word: Seq<char>) -> int {
    word.len() + eos_len(text, at + word.len())
}

/// Number of code points of the statement at the index `at` of `text`, and
/// nothing where no statement stands there.
pub open spec fn statement_len(text: Seq<char>, at: int) -> int {
    if occurs_at(text, at, ";"@) {
        ";"@.len() as int
    } else if occurs_at(text, at, "grammar!"@) {
        line_len(text, at, "grammar!"@)
    } else if occurs_at(text, at, "import!"@) {
        line_len(text, at, "import!"@)
    } else {
        0
    }
}

/// `statement_len` as a value.
pub open spec fn statement_step() -> spec_fn(Seq<char>, int) -> int {
    |text: Seq<char>, at: int| statement_len(text, at)
}

/// Index of the code point behind the statements that stand one after the
/// other from the index `at` of `text` on.
pub open spec fn program_end(text: Seq<char>, at: int) -> int {
    scan_end(statement_step(), text, at)
}

/// One where a code point that may continue an identifier stands at the
/// index `at` of `text`, and nothing elsewhere.
pub open spec fn continue_len(text: Seq<char>, at: int) -> int {
    if 0 <= at < text.len() && xid_continue(text[at]) {
        1
    } else {
        0
    }
}

/// `continue_len` as a value.
pub open spec fn continue_step() -> spec_fn(Seq<char>, int) -> int {
    |text: Seq<char>, at: int| continue_len(text, at)
}

/// Index of the code point behind the code points that may continue an
/// identifier and stand one after the other from the index `at` of `text`
/// on.
pub open spec fn symbol_end(text: Seq<char>, at: int) -> int {
    scan_end(continue_step(), text, at)
}

/// True when no marker of `q` from `lo` up to `hi` carries the rule
/// `WHITESPACE`.
pub open spec fn plain(q: Seq<TokenQueue<Rule>>, lo: int, hi: int) -> bool {
    forall|i: int| lo <= i < hi ==> (#[trigger] q[i]).rule_of() != Rule::WHITESPACE
}

/// True when the markers that `after` has more than `before` carry no
/// `WHITESPACE`.
pub open spec fn adds_plain<'i>(before: State<'i, Rule>, after: State<'i, Rule>) -> bool {
    plain(after.tokens(), before.tokens().len() as int, after.tokens().len() as int)
}

/// True when the markers that `after` has more than `before` are one pair
/// of the rule `rule` around all that was matched, unless `before` stands
/// inside a compound atomic rule.
pub open spec fn wraps<'i>(before: State<'i, Rule>, after: State<'i, Rule>, rule: Rule) -> bool {
    before.atomicity() != Atomicity::CompoundAtomic ==> {
        let n = before.tokens().len() as int;
        let m = after.tokens().len() as int;
        &&& n + 2 <= m
        &&& is_pair(after.tokens(), n, m - 1)
        &&& after.tokens()[n].rule_of() == rule
        &&& after.tokens()[n].offset() == before.offset()
        &&& after.tokens()[m - 1].offset() == after.offset()
    }
}

/// True when the markers of `q` from `lo` up to `hi` are a row of pairs of
/// the rule `statement`, one for each of the statements that stand one
/// after the other in `text` from the index `at` up to the index `end`.
pub open spec fn statement_row(
    q: Seq<TokenQueue<Rule>>,
    text: Seq<char>,
    lo: int,
    hi: int,
    at: int,
    end: int,
) -> bool
    decreases hi - lo,
{
    if lo >= hi {
        lo == hi && at == end
    } else {
        let j = pair_end(q, lo);
        &&& is_pair(q, lo, j)
        &&& j < hi
        &&& q[lo].rule_of() == Rule::statement
        &&& char_index(text, q[lo].offset()) == at
        &&& statement_len(text, at) > 0
        &&& char_index(text, q[j].offset()) == at + statement_len(text, at)
        &&& statement_row(q, text, j + 1, hi, at + statement_len(text, at), end)
    }
}

/// Whether markers are a row of statements depends on them only.
pub proof fn lemma_row_frame(
    a: Seq<TokenQueue<Rule>>,
    b: Seq<TokenQueue<Rule>>,
    text: Seq<char>,
    lo: int,
    hi: int,
    at: int,
    end: int,
)
    requires
        0 <= lo,
        hi <= a.len(),
        hi <= b.len(),
        forall|i: int| lo <= i < hi ==> a[i] == b[i],
        statement_row(a, text, lo, hi, at, end),
    ensures
        statement_row(b, text, lo, hi, at, end),
    decreases hi - lo,
{
    if lo < hi {
        let j = pair_end(a, lo);
        lemma_row_frame(a, b, text, j + 1, hi, at + statement_len(text, at), end);
    }
}

/// A row of statements with the pair of one more statement behind it is a
/// row of statements.
pub proof fn lemma_row_more(
    a: Seq<TokenQueue<Rule>>,
    b: Seq<TokenQueue<Rule>>,
    text: Seq<char>,
    lo: int,
    mid: int,
    hi: int,
    at: int,
    then: int,
    end: int,
)
    requires
        0 <= lo <= mid,
        mid <= a.len(),
        forall|i: int| lo <= i < mid ==> a[i] == b[i],
        statement_row(a, text, lo, mid, at, then),
        is_pair(b, mid, hi - 1),
        b[mid].rule_of() == Rule::statement,
        char_index(text, b[mid].offset()) == then,
        statement_len(text, then) > 0,
        char_index(text, b[hi - 1].offset()) == end,
        end == then + statement_len(text, then),
    ensures
        statement_row(b, text, lo, hi, at, end),
    decreases mid - lo,
{
    if lo < mid {
        let j = pair_end(a, lo);
        lemma_row_more(a, b, text, j + 1, mid, hi, at + statement_len(text, at), then, end);
    } else {
        assert(statement_row(b, text, hi, hi, end, end));
    }
}

/// Matches what is ignored between the parts of a statement: nothing.
pub fn SKIP<'i>(state: RuleState<'i>) -> (r: RuleResult<'i>)
    requires
        state.wf(),
    ensures
        r == Ok::<State<'i, Rule>, State<'i, Rule>>(state),
        follows(state, r),
{
    proof {
        let q = state.tokens();
        assert(q.take(q.len() as int) =~= q);
        assert(crate::token::forest(q, q.len() as int, q.len() as int));
    }
    Ok(state)
}

/// Matches at the start of the input.
pub fn SOI<'i>(state: RuleState<'i>) -> (r: RuleResult<'i>)
    requires
        state.wf(),
    ensures
        follows(state, r),
        r is Ok <==> state.offset() == 0,
        r matches Ok(t) ==> t == state,
        r matches Err(t) ==> t == state,
{
    state.start_of_input()
}

/// Matches at the end of the input, as the rule `EOI`.
pub fn EOI<'i>(state: RuleState<'i>) -> (r: RuleResult<'i>)
    requires
        state.wf(),
    ensures
        follows(state, r),
        r is Ok <==> state.position().remaining().len() == 0,
        r matches Ok(t) ==> t.offset() == state.offset(),
{
    let f = |s: State<'i, Rule>| -> (out: Either<State<'i, Rule>>)
        requires
            s.wf(),
        ensures
            follows(s, out),
            out is Ok <==> s.position().remaining().len() == 0,
            out matches Ok(t) ==> t == s,
        { s.end_of_input() };
    state.rule(Rule::EOI, f)
}

/// Matches `grammar!`.
pub fn grammar<'i>(state: RuleState<'i>) -> (r: RuleResult<'i>)
    requires
        state.wf(),
    ensures
        follows(state, r),
        r is Ok <==> at_word(state, "grammar!"@),
        r matches Ok(t) ==> t.offset() == state.offset() + byte_len("grammar!"@) && place(t)
            == place(state) + "grammar!"@.len() && t.tokens() == state.tokens(),
        r matches Err(t) ==> t == state,
{
    state.match_string("grammar!")
}

/// Matches `import!`.
pub fn import<'i>(state: RuleState<'i>) -> (r: RuleResult<'i>)
    requires
        state.wf(),
    ensures
        follows(state, r),
        r is Ok <==> at_word(state, "import!"@),
        r matches Ok(t) ==> t.offset() == state.offset() + byte_len("import!"@) && place(t)
            == place(state) + "import!"@.len() && t.tokens() == state.tokens(),
        r matches Err(t) ==> t == state,
{
    state.match_string("import!")
}

/// Matches `;`, as the rule `eos`.
pub fn eos<'i>(state: RuleState<'i>, mark: bool) -> (r: RuleResult<'i>)
    requires
        state.wf(),
    ensures
        follows(state, r),
        r is Ok <==> at_word(state, ";"@),
        r matches Ok(t) ==> t.offset() == state.offset() + byte_len(";"@) && place(t) == place(
            state,
        ) + ";"@.len() && wraps(state, t, Rule::eos) && adds_plain(state, t),
{
    let inner = |s: State<'i, Rule>| -> (out: Either<State<'i, Rule>>)
        requires
            s.wf(),
        ensures
            follows(s, out),
            out is Ok <==> at_word(s, ";"@),
            out matches Ok(t) ==> t.offset() == s.offset() + byte_len(";"@) && place(t) == place(s)
                + ";"@.len() && t.tokens() == s.tokens(),
            out matches Err(t) ==> t.position() == s.position(),
        { s.match_string(";") };
    let f = |s: State<'i, Rule>| -> (out: Either<State<'i, Rule>>)
        requires
            s.wf(),
        ensures
            follows(s, out),
            out is Ok <==> at_word(s, ";"@),
            out matches Ok(t) ==> t.offset() == s.offset() + byte_len(";"@) && place(t) == place(s)
                + ";"@.len() && t.tokens() == s.tokens(),
        { s.atomic(Atomicity::Atomic, inner) };
    state.rule(Rule::eos, f)
}

/// Where the parser of a rule adds no `WHITESPACE`, the rule adds none.
proof fn lemma_rule_plain<'i>(
    entry: State<'i, Rule>,
    rule: Rule,
    inner: State<'i, Rule>,
    out: Either<State<'i, Rule>>,
    r: Either<State<'i, Rule>>,
)
    requires
        rule != Rule::WHITESPACE,
        opened(entry, rule, inner),
        rule_closed(entry, rule, out, r),
        out matches Ok(t) ==> adds_plain(inner, t) && inner.tokens().len() <= t.tokens().len(),
    ensures
        r matches Ok(s) ==> adds_plain(entry, s),
{
    if let (Ok(t), Ok(s)) = (out, r) {
        let n = entry.tokens().len() as int;
        assert forall|i: int| n <= i < s.tokens().len() implies (#[trigger] s.tokens()[i]).rule_of()
            != Rule::WHITESPACE by {
            if entry.atomicity() != Atomicity::CompoundAtomic {
                if i < s.tokens().len() - 1 {
                    assert(s.tokens().drop_last()[i] == s.tokens()[i]);
                    if i > n {
                        assert(t.tokens()[i].rule_of() != Rule::WHITESPACE);
                    }
                } else {
                    assert(s.tokens()[i] == s.tokens().last());
                }
            } else {
                assert(t.tokens()[i].rule_of() != Rule::WHITESPACE);
            }
        }
    }
}

/// Matches a lone `;`, as the rule `empty_statement`.
pub fn empty_statement<'i>(state: RuleState<'i>) -> (r: RuleResult<'i>)
    requires
        state.wf(),
    ensures
        follows(state, r),
        r is Ok <==> at_word(state, ";"@),
        r matches Ok(t) ==> t.offset() == state.offset() + byte_len(";"@) && place(t) == place(
            state,
        ) + ";"@.len() && wraps(state, t, Rule::empty_statement) && adds_plain(state, t),
{
    let f = |s: State<'i, Rule>| -> (out: Either<State<'i, Rule>>)
        requires
            s.wf(),
        ensures
            follows(s, out),
            out is Ok <==> at_word(s, ";"@),
            out matches Ok(t) ==> t.offset() == s.offset() + byte_len(";"@) && place(t) == place(s)
                + ";"@.len() && adds_plain(s, t),
        { eos(s, false) };
    let ghost entry = state;
    let r = state.rule(Rule::empty_statement, f);
    proof {
        let (inner, out) = choose|inner: State<'i, Rule>, out: Either<State<'i, Rule>>| #[trigger]
            f.ensures((inner,), out) && inner.wf() && opened(entry, Rule::empty_statement, inner)
                && rule_closed(entry, Rule::empty_statement, out, r);
        lemma_rule_plain(entry, Rule::empty_statement, inner, out, r);
    }
    r
}

/// Matches `grammar!`, as the rule `grammar_statement`.
pub fn grammar_statement<'i>(state: RuleState<'i>) -> (r: RuleResult<'i>)
    requires
        state.wf(),
    ensures
        follows(state, r),
        r is Ok <==> at_word(state, "grammar!"@),
        r matches Ok(t) ==> t.offset() == state.offset() + byte_len("grammar!"@) && place(t)
            == place(state) + "grammar!"@.len() && wraps(state, t, Rule::grammar_statement)
            && adds_plain(state, t),
{
    let f = |s: State<'i, Rule>| -> (out: Either<State<'i, Rule>>)
        requires
            s.wf(),
        ensures
            follows(s, out),
            out is Ok <==> at_word(s, "grammar!"@),
            out matches Ok(t) ==> t.offset() == s.offset() + byte_len("grammar!"@) && place(t)
                == place(s) + "grammar!"@.len() && t.tokens() == s.tokens(),
        { grammar(s) };
    state.rule(Rule::grammar_statement, f)
}

/// Matches `import!`, as the rule `import_statement`.
pub fn import_statement<'i>(state: RuleState<'i>) -> (r: RuleResult<'i>)
    requires
        state.wf(),
    ensures
        follows(state, r),
        r is Ok <==> at_word(state, "import!"@),
        r matches Ok(t) ==> t.offset() == state.offset() + byte_len("import!"@) && place(t)
            == place(state) + "import!"@.len() && wraps(state, t, Rule::import_statement)
            && adds_plain(state, t),
{
    let f = |s: State<'i, Rule>| -> (out: Either<State<'i, Rule>>)
        requires
            s.wf(),
        ensures
            follows(s, out),
            out is Ok <==> at_word(s, "import!"@),
            out matches Ok(t) ==> t.offset() == s.offset() + byte_len("import!"@) && place(t)
                == place(s) + "import!"@.len() && t.tokens() == s.tokens(),
        { import(s) };
    state.rule(Rule::import_statement, f)
}

/// Matches `;` where one stands at the cursor.
fn optional_eos<'i>(state: RuleState<'i>) -> (r: RuleResult<'i>)
    requires
        state.wf(),
    ensures
        follows(state, r),
        r matches Ok(t) && place(t) == place(state) + eos_len(state.text(), place(state))
            && adds_plain(state, t),
{
    let f = |s: State<'i, Rule>| -> (out: Either<State<'i, Rule>>)
        requires
            s.wf(),
        ensures
            follows(s, out),
            out is Ok <==> at_word(s, ";"@),
            out matches Ok(t) ==> place(t) == place(s) + ";"@.len() && adds_plain(s, t),
        { eos(s, false) };
    state.optional(f)
}

/// Markers that carry no `WHITESPACE` before and after the end of a queue
/// carry none in the longer queue.
proof fn lemma_plain_chain<'i>(a: State<'i, Rule>, b: State<'i, Rule>, c: State<'i, Rule>)
    requires
        follows(a, Ok::<State<'i, Rule>, State<'i, Rule>>(b)),
        follows(b, Ok::<State<'i, Rule>, State<'i, Rule>>(c)),
        adds_plain(a, b),
        adds_plain(b, c),
    ensures
        adds_plain(a, c),
{
    let n = b.tokens().len() as int;
    assert forall|i: int| a.tokens().len() <= i < c.tokens().len() implies (
    #[trigger] c.tokens()[i]).rule_of() != Rule::WHITESPACE by {
        if i < n {
            assert(c.tokens().take(n)[i] == b.tokens()[i]);
        }
    }
}

/// Matches `grammar!` with or without a `;` behind it.
fn grammar_line<'i>(state: RuleState<'i>) -> (r: RuleResult<'i>)
    requires
        state.wf(),
    ensures
        follows(state, r),
        r is Ok <==> at_word(state, "grammar!"@),
        r matches Ok(t) ==> place(t) == place(state) + line_len(
            state.text(),
            place(state),
            "grammar!"@,
        ) && adds_plain(state, t),
        r matches Err(t) ==> t.position() == state.position(),
{
    let f = |s: State<'i, Rule>| -> (out: Either<State<'i, Rule>>)
        requires
            s.wf(),
        ensures
            follows(s, out),
            out is Ok <==> at_word(s, "grammar!"@),
            out matches Ok(t) ==> place(t) == place(s) + line_len(s.text(), place(s), "grammar!"@)
                && adds_plain(s, t),
        {
            match grammar_statement(s) {
                Ok(t) => {
                    let out = optional_eos(t);
                    proof {
                        lemma_follows_chain(s, t, out);
                        lemma_plain_chain(s, t, out->Ok_0);
                    }
                    out
                },
                Err(t) => Err(t),
            }
        };
    state.sequence(f)
}

/// Matches `import!` with or without a `;` behind it.
fn import_line<'i>(state: RuleState<'i>) -> (r: RuleResult<'i>)
    requires
        state.wf(),
    ensures
        follows(state, r),
        r is Ok <==> at_word(state, "import!"@),
        r matches Ok(t) ==> place(t) == place(state) + line_len(
            state.text(),
            place(state),
            "import!"@,
        ) && adds_plain(state, t),
        r matches Err(t) ==> t.position() == state.position(),
{
    let f = |s: State<'i, Rule>| -> (out: Either<State<'i, Rule>>)
        requires
            s.wf(),
        ensures
            follows(s, out),
            out is Ok <==> at_word(s, "import!"@),
            out matches Ok(t) ==> place(t) == place(s) + line_len(s.text(), place(s), "import!"@)
                && adds_plain(s, t),
        {
            match import_statement(s) {
                Ok(t) => {
                    let out = optional_eos(t);
                    proof {
                        lemma_follows_chain(s, t, out);
                        lemma_plain_chain(s, t, out->Ok_0);
                    }
                    out
                },
                Err(t) => Err(t),
            }
        };
    state.sequence(f)
}

/// Matches one statement, as the rule `statement`.
pub fn statement<'i>(state: RuleState<'i>) -> (r: RuleResult<'i>)
    requires
        state.wf(),
    ensures
        follows(state, r),
        r is Ok <==> at_statement(state),
        r matches Ok(t) ==> place(t) == place(state) + statement_len(state.text(), place(state))
            && wraps(state, t, Rule::statement) && adds_plain(state, t),
{
    let lines = |s: State<'i, Rule>| -> (out: Either<State<'i, Rule>>)
        requires
            s.wf(),
        ensures
            follows(s, out),
            out is Ok <==> at_word(s, "grammar!"@) || at_word(s, "import!"@),
            out matches Ok(t) ==> adds_plain(s, t) && place(t) == place(s) + if at_word(
                s,
                "grammar!"@,
            ) {
                line_len(s.text(), place(s), "grammar!"@)
            } else {
                line_len(s.text(), place(s), "import!"@)
            },
        {
            let a = |s1: State<'i, Rule>| -> (o: Either<State<'i, Rule>>)
                requires
                    s1.wf(),
                ensures
                    follows(s1, o),
                    o is Ok <==> at_word(s1, "grammar!"@),
                    o matches Ok(t) ==> adds_plain(s1, t) && place(t) == place(s1) + line_len(
                        s1.text(),
                        place(s1),
                        "grammar!"@,
                    ),
                { grammar_line(s1) };
            let b = |s1: State<'i, Rule>| -> (o: Either<State<'i, Rule>>)
                requires
                    s1.wf(),
                ensures
                    follows(s1, o),
                    o is Ok <==> at_word(s1, "import!"@),
                    o matches Ok(t) ==> adds_plain(s1, t) && place(t) == place(s1) + line_len(
                        s1.text(),
                        place(s1),
                        "import!"@,
                    ),
                { import_line(s1) };
            s.choice(a, b)
        };
    let f = |s: State<'i, Rule>| -> (out: Either<State<'i, Rule>>)
        requires
            s.wf(),
        ensures
            follows(s, out),
            out is Ok <==> at_statement(s),
            out matches Ok(t) ==> place(t) == place(s) + statement_len(s.text(), place(s))
                && adds_plain(s, t),
        {
            let a = |s1: State<'i, Rule>| -> (o: Either<State<'i, Rule>>)
                requires
                    s1.wf(),
                ensures
                    follows(s1, o),
                    o is Ok <==> at_word(s1, ";"@),
                    o matches Ok(t) ==> place(t) == place(s1) + ";"@.len() && adds_plain(s1, t),
                { empty_statement(s1) };
            s.choice(a, lines)
        };
    let ghost entry = state;
    let r = state.rule(Rule::statement, f);
    proof {
        let (inner, out) = choose|inner: State<'i, Rule>, out: Either<State<'i, Rule>>| #[trigger]
            f.ensures((inner,), out) && inner.wf() && opened(entry, Rule::statement, inner)
                && rule_closed(entry, Rule::statement, out, r);
        lemma_rule_plain(entry, Rule::statement, inner, out, r);
    }
    r
}

/// A statement has at least one code point.
proof fn lemma_statement_len(text: Seq<char>, at: int)
    ensures
        statement_len(text, at) >= 0,
        statement_len(text, at) > 0 <==> occurs_at(text, at, ";"@) || occurs_at(
            text,
            at,
            "grammar!"@,
        ) || occurs_at(text, at, "import!"@),
{
    reveal_strlit(";");
    reveal_strlit("grammar!");
    reveal_strlit("import!");
}

/// True when `f` matches one statement where one stands at the cursor, and
/// then adds the pair of the statement and no `WHITESPACE`, and fails
/// elsewhere and then leaves the cursor where it was.
pub open spec fn takes_statement<'i, F: Fn(State<'i, Rule>) -> Either<State<'i, Rule>>>(
    f: F,
    text: Seq<char>,
) -> bool {
    forall|s: State<'i, Rule>, out: Either<State<'i, Rule>>|
        s.wf() && s.text() == text && #[trigger] f.ensures((s,), out) ==> match out {
            Ok(t) => statement_len(text, place(s)) > 0 && place(t) == place(s) + statement_len(
                text,
                place(s),
            ) && wraps(s, t, Rule::statement) && adds_plain(s, t),
            Err(t) => statement_len(text, place(s)) <= 0 && t.position() == s.position(),
        }
}

/// Statements that are matched in a row add a row of statements to the
/// markers, and no `WHITESPACE`.
proof fn lemma_runs_row<'i, F: Fn(State<'i, Rule>) -> Either<State<'i, Rule>>>(
    f: F,
    lo: int,
    at: int,
    from: State<'i, Rule>,
    last: State<'i, Rule>,
    k: nat,
)
    requires
        from.wf(),
        is_parser(f, from.text()),
        takes_statement(f, from.text()),
        0 <= lo <= from.tokens().len(),
        plain(from.tokens(), lo, from.tokens().len() as int),
        from.atomicity() != Atomicity::CompoundAtomic ==> statement_row(
            from.tokens(),
            from.text(),
            lo,
            from.tokens().len() as int,
            at,
            place(from),
        ),
        runs(f, from, last, k),
    ensures
        last.wf(),
        last.text() == from.text(),
        last.atomicity() == from.atomicity(),
        lo <= last.tokens().len(),
        plain(last.tokens(), lo, last.tokens().len() as int),
        from.atomicity() != Atomicity::CompoundAtomic ==> statement_row(
            last.tokens(),
            from.text(),
            lo,
            last.tokens().len() as int,
            at,
            place(last),
        ),
    decreases k,
{
    if k > 0 {
        let mid = choose|mid: State<'i, Rule>|
            runs(f, from, mid, (k - 1) as nat) && #[trigger] f.ensures(
                (mid,),
                Ok::<State<'i, Rule>, State<'i, Rule>>(last),
            ) && mid.offset() < last.offset();
        lemma_runs_row(f, lo, at, from, mid, (k - 1) as nat);
        assert(follows(mid, Ok::<State<'i, Rule>, State<'i, Rule>>(last)));
        let n = mid.tokens().len() as int;
        assert forall|i: int| lo <= i < n implies mid.tokens()[i] == last.tokens()[i] by {
            assert(last.tokens().take(n)[i] == mid.tokens()[i]);
        }
        if from.atomicity() != Atomicity::CompoundAtomic {
            lemma_row_more(
                mid.tokens(),
                last.tokens(),
                from.text(),
                lo,
                n,
                last.tokens().len() as int,
                at,
                place(mid),
                place(last),
            );
        }
    }
}

/// Matches statements as long as there are any. Outside a compound atomic
/// rule, the markers that it adds are the row of their pairs.
fn statements<'i>(state: RuleState<'i>) -> (r: RuleResult<'i>)
    requires
        state.wf(),
    ensures
        follows(state, r),
        r matches Ok(t) && place(t) == program_end(state.text(), place(state)) && adds_plain(
            state,
            t,
        ) && (state.atomicity() != Atomicity::CompoundAtomic ==> statement_row(
            t.tokens(),
            state.text(),
            state.tokens().len() as int,
            t.tokens().len() as int,
            place(state),
            place(t),
        )),
{
    let ghost text = state.text();
    let one = |s: State<'i, Rule>| -> (out: Either<State<'i, Rule>>)
        requires
            s.wf(),
        ensures
            follows(s, out),
            out is Ok <==> at_statement(s),
            out matches Ok(t) ==> place(t) == place(s) + statement_len(s.text(), place(s)) && wraps(
                s,
                t,
                Rule::statement,
            ) && adds_plain(s, t),
            out matches Err(t) ==> t.position() == s.position() && t.tokens() == s.tokens(),
        {
            let step = |s1: State<'i, Rule>| -> (o: Either<State<'i, Rule>>)
                requires
                    s1.wf(),
                ensures
                    follows(s1, o),
                    o is Ok <==> at_statement(s1),
                    o matches Ok(t) ==> place(t) == place(s1) + statement_len(s1.text(), place(s1))
                        && wraps(s1, t, Rule::statement) && adds_plain(s1, t),
                { statement(s1) };
            s.sequence(step)
        };
    let all = |s: State<'i, Rule>| -> (out: Either<State<'i, Rule>>)
        requires
            s.wf(),
        ensures
            follows(s, out),
            out is Ok <==> at_statement(s),
            out matches Ok(t) ==> place(t) == program_end(s.text(), place(s)) && adds_plain(s, t)
                && (s.atomicity() != Atomicity::CompoundAtomic ==> statement_row(
                t.tokens(),
                s.text(),
                s.tokens().len() as int,
                t.tokens().len() as int,
                place(s),
                place(t),
            )),
        {
            match statement(s) {
                Ok(t) => {
                    let out = t.repeat(one);
                    proof {
                        lemma_follows_chain(s, t, out);
                        assert forall|s2: State<'i, Rule>, o2: Either<State<'i, Rule>>|
                            s2.wf() && s2.text() == t.text() && #[trigger] one.ensures(
                                (s2,),
                                o2,
                            ) implies match o2 {
                            Ok(u) => statement_step()(t.text(), s2.position().index()) > 0
                                && u.position().index() == s2.position().index()
                                + statement_step()(t.text(), s2.position().index()),
                            Err(u) => statement_step()(t.text(), s2.position().index()) <= 0
                                && u.position() == s2.position(),
                        } by {
                            lemma_statement_len(t.text(), place(s2));
                        }
                        lemma_repeat_scans(one, statement_step(), t, out);
                        lemma_statement_len(s.text(), place(s));
                        crate::text::lemma_offset_to_index(t.text(), t.offset());
                        crate::text::lemma_offset_to_index(s.text(), s.offset());
                        assert forall|s2: State<'i, Rule>, o2: Either<State<'i, Rule>>|
                            s2.wf() && s2.text() == t.text() && #[trigger] one.ensures(
                                (s2,),
                                o2,
                            ) implies match o2 {
                            Ok(u) => statement_len(t.text(), place(s2)) > 0 && place(u) == place(s2)
                                + statement_len(t.text(), place(s2)) && wraps(
                                s2,
                                u,
                                Rule::statement,
                            ) && adds_plain(s2, u),
                            Err(u) => statement_len(t.text(), place(s2)) <= 0 && u.position()
                                == s2.position(),
                        } by {
                            lemma_statement_len(t.text(), place(s2));
                        }
                        let n = s.tokens().len() as int;
                        if s.atomicity() != Atomicity::CompoundAtomic {
                            lemma_row_more(
                                s.tokens(),
                                t.tokens(),
                                s.text(),
                                n,
                                n,
                                t.tokens().len() as int,
                                place(s),
                                place(s),
                                place(t),
                            );
                        }
                        let (k, last, o) = choose|
                            k: nat,
                            last: State<'i, Rule>,
                            o: Either<State<'i, Rule>>,
                        |
                            #![trigger runs(one, t, last, k), one.ensures((last,), o)]
                            runs(one, t, last, k) && one.ensures((last,), o) && repeat_ends(
                                t,
                                last,
                                o,
                                out,
                            );
                        lemma_runs_row(one, n, place(s), t, last, k);
                        assert(follows(last, o));
                    }
                    out
                },
                Err(t) => Err(t),
            }
        };
    let ghost entry = state;
    let r = state.optional(all);
    proof {
        lemma_statement_len(text, place(entry));
        let n = entry.tokens().len() as int;
        assert(statement_row(entry.tokens(), text, n, n, place(entry), place(entry)));
    }
    r
}

/// Matches a row of statements, as the rule `program`. Outside a compound
/// atomic rule, the markers that it adds are one pair of the rule `program`
/// around the row of the pairs of the statements.
pub fn program<'i>(state: RuleState<'i>) -> (r: RuleResult<'i>)
    requires
        state.wf(),
    ensures
        follows(state, r),
        r matches Ok(t) && place(t) == program_end(state.text(), place(state)) && wraps(
            state,
            t,
            Rule::program,
        ) && adds_plain(state, t) && (state.atomicity() != Atomicity::CompoundAtomic
            ==> statement_row(
            t.tokens(),
            state.text(),
            state.tokens().len() as int + 1,
            t.tokens().len() as int - 1,
            place(state),
            place(t),
        )),
{
    let f = |s: State<'i, Rule>| -> (out: Either<State<'i, Rule>>)
        requires
            s.wf(),
        ensures
            follows(s, out),
            out matches Ok(t) && place(t) == program_end(s.text(), place(s)) && adds_plain(s, t)
                && (s.atomicity() != Atomicity::CompoundAtomic ==> statement_row(
                t.tokens(),
                s.text(),
                s.tokens().len() as int,
                t.tokens().len() as int,
                place(s),
                place(t),
            )),
        {
            let g = |s1: State<'i, Rule>| -> (o: Either<State<'i, Rule>>)
                requires
                    s1.wf(),
                ensures
                    follows(s1, o),
                    o matches Ok(t) && place(t) == program_end(s1.text(), place(s1)) && adds_plain(
                        s1,
                        t,
                    ) && (s1.atomicity() != Atomicity::CompoundAtomic ==> statement_row(
                        t.tokens(),
                        s1.text(),
                        s1.tokens().len() as int,
                        t.tokens().len() as int,
                        place(s1),
                        place(t),
                    )),
                { statements(s1) };
            s.sequence(g)
        };
    let ghost entry = state;
    let r = state.rule(Rule::program, f);
    proof {
        let (inner, out) = choose|inner: State<'i, Rule>, out: Either<State<'i, Rule>>| #[trigger]
            f.ensures((inner,), out) && inner.wf() && opened(entry, Rule::program, inner)
                && rule_closed(entry, Rule::program, out, r);
        lemma_rule_plain(entry, Rule::program, inner, out, r);
        if entry.atomicity() != Atomicity::CompoundAtomic {
            let t = out->Ok_0;
            let s = r->Ok_0;
            let n = entry.tokens().len() as int;
            assert forall|i: int| n + 1 <= i < t.tokens().len() implies t.tokens()[i]
                == s.tokens()[i] by {
                assert(s.tokens().drop_last()[i] == s.tokens()[i]);
            }
            lemma_row_frame(
                t.tokens(),
                s.tokens(),
                entry.text(),
                n + 1,
                t.tokens().len() as int,
                place(entry),
                place(t),
            );
        }
    }
    r
}

/// Matches a whole text that is a row of statements: from the start of
/// the input to its end.
pub fn program_entry_point<'i>(state: RuleState<'i>) -> (r: RuleResult<'i>)
    requires
        state.wf(),
    ensures
        follows(state, r),
        r is Ok <==> state.offset() == 0 && program_end(state.text(), 0) == state.text().len(),
        r matches Ok(t) ==> t.position().remaining().len() == 0,
        r matches Err(t) ==> t.position() == state.position() && t.tokens() == state.tokens(),
{
    let f = |s: State<'i, Rule>| -> (out: Either<State<'i, Rule>>)
        requires
            s.wf(),
        ensures
            follows(s, out),
            out is Ok <==> s.offset() == 0 && program_end(s.text(), 0) == s.text().len(),
            out matches Ok(t) ==> t.position().remaining().len() == 0,
        {
            proof {
                crate::text::lemma_offset_to_index(s.text(), s.offset());
            }
            match SOI(s) {
                Ok(t) => {
                    match statements(t) {
                        Ok(u) => {
                            let out = EOI(u);
                            proof {
                                lemma_follows_chain(s, u, out);
                                crate::text::lemma_offset_to_index(u.text(), u.offset());
                                crate::text::lemma_index_to_offset(s.text(), 0);
                            }
                            out
                        },
                        Err(u) => Err(u),
                    }
                },
                Err(t) => Err(t),
            }
        };
    state.sequence(f)
}

/// Matches one code point that may start an identifier.
fn XID_START<'i>(state: RuleState<'i>) -> (r: RuleResult<'i>)
    requires
        state.wf(),
    ensures
        follows(state, r),
        r is Ok <==> at_symbol(state),
        r matches Ok(t) ==> t.offset() == state.position().advanced(1) && place(t) == place(state)
            + 1,
        r matches Err(t) ==> t == state,
{
    let p = |c: char| -> (b: bool)
        ensures
            b == xid_start(c),
        { is_xid_start(c) };
    state.match_char_by(p)
}

/// Matches one code point that may continue an identifier.
fn XID_CONTINUE<'i>(state: RuleState<'i>) -> (r: RuleResult<'i>)
    requires
        state.wf(),
    ensures
        follows(state, r),
        r is Ok <==> state.position().remaining().len() > 0 && xid_continue(
            state.position().remaining()[0],
        ),
        r matches Ok(t) ==> place(t) == place(state) + 1,
        r matches Err(t) ==> t == state,
{
    let p = |c: char| -> (b: bool)
        ensures
            b == xid_continue(c),
        { is_xid_continue(c) };
    state.match_char_by(p)
}

/// Matches an identifier, as the rule `SYMBOL`.
pub fn SYMBOL<'i>(state: RuleState<'i>) -> (r: RuleResult<'i>)
    requires
        state.wf(),
    ensures
        follows(state, r),
        r is Ok <==> at_symbol(state),
        r matches Ok(t) ==> place(t) == symbol_end(state.text(), place(state) + 1),
{
    let more = |s: State<'i, Rule>| -> (out: Either<State<'i, Rule>>)
        requires
            s.wf(),
        ensures
            follows(s, out),
            out is Ok <==> s.position().remaining().len() > 0 && xid_continue(
                s.position().remaining()[0],
            ),
            out matches Ok(t) ==> place(t) == place(s) + 1,
            out matches Err(t) ==> t == s,
        { XID_CONTINUE(s) };
    let f = |s: State<'i, Rule>| -> (out: Either<State<'i, Rule>>)
        requires
            s.wf(),
        ensures
            follows(s, out),
            out is Ok <==> at_symbol(s),
            out matches Ok(t) ==> place(t) == symbol_end(s.text(), place(s) + 1),
        {
            let g = |s1: State<'i, Rule>| -> (o: Either<State<'i, Rule>>)
                requires
                    s1.wf(),
                ensures
                    follows(s1, o),
                    o is Ok <==> at_symbol(s1),
                    o matches Ok(t) ==> place(t) == symbol_end(s1.text(), place(s1) + 1),
                {
                    match XID_START(s1) {
                        Ok(t) => {
                            let o = t.repeat(more);
                            proof {
                                lemma_follows_chain(s1, t, o);
                                assert forall|s2: State<'i, Rule>, o2: Either<State<'i, Rule>>|
                                    s2.wf() && s2.text() == t.text() && #[trigger] more.ensures(
                                        (s2,),
                                        o2,
                                    ) implies match o2 {
                                    Ok(u) => continue_step()(t.text(), s2.position().index()) > 0
                                        && u.position().index() == s2.position().index()
                                        + continue_step()(t.text(), s2.position().index()),
                                    Err(u) => continue_step()(t.text(), s2.position().index()) <= 0
                                        && u.position() == s2.position(),
                                } by {
                                    crate::text::lemma_offset_to_index(s2.text(), s2.offset());
                                }
                                lemma_repeat_scans(more, continue_step(), t, o);
                            }
                            o
                        },
                        Err(t) => Err(t),
                    }
                };
            s.sequence(g)
        };
    state.rule(Rule::SYMBOL, f)
}

} // verus!
