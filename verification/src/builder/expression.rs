//! From the expressions of the parse tree to the expressions of a grammar.
//!
//! Alternatives become a choice, rows of terms a sequence, and one member
//! stands for itself. A tag before a term becomes the tag of the term. The
//! signs after a term become operators in their order, and then the signs
//! before it from the innermost on; `^` marks the term instead. The first
//! error in the order of the text ends the building of an expression.

use crate::bootstrap::tree::{
    AtomicNode, BooleanNode, ExpressionHardNode, ExpressionNode, ExpressionSoftNode,
    ExpressionTagNode, PrefixNode, StringNode, SuffixNode, TermNode, TextNode,
};
use crate::builder::fault::{bad_tag, custom, GrammarError, GrammarErrorView};
use crate::ir::expression::{
    lemma_node_views, lemma_node_views_push, node_views, DataKind, DataView, ExpressionKind,
    FunctionExpression, KindView, NodeView, Operator, UnaryExpression,
};
use crate::ir::regex::{anchored, compiled_tables, RegexView, YggdrasilRegex};
use crate::strings::{from_chars, to_chars};
use vstd::prelude::*;
use vstd::string::*;

verus! {

/// Number of code points `c` at the front of `s`, from `i` on.
pub open spec fn lead(s: Seq<char>, c: char, i: int) -> int
    decreases s.len() - i,
{
    if i < 0 || i >= s.len() || s[i] != c {
        i
    } else {
        lead(s, c, i + 1)
    }
}

/// Index behind the last code point of `s` before `j` that is not `c`, but
/// not before `low`.
pub open spec fn trail(s: Seq<char>, c: char, low: int, j: int) -> int
    decreases j,
{
    if j <= 0 || j <= low || j > s.len() || s[j - 1] != c {
        j
    } else {
        trail(s, c, low, j - 1)
    }
}

/// `s` without the code points `c` at its front and at its end.
pub open spec fn trimmed(s: Seq<char>, c: char) -> Seq<char> {
    s.subrange(lead(s, c, 0), trail(s, c, lead(s, c, 0), s.len() as int))
}

/// `s` without the code points `c` at its front and at its end.
pub fn trim(s: &str, c: char) -> (out: String)
    ensures
        out@ == trimmed(s@, c),
{
    let chars = to_chars(s);
    let mut a: usize = 0;
    while a < chars.len() && chars[a] == c
        invariant
            a <= chars.len(),
            lead(chars@, c, a as int) == lead(chars@, c, 0),
        decreases chars.len() - a,
    {
        a = a + 1;
    }
    let mut b: usize = chars.len();
    while b > a && chars[b - 1] == c
        invariant
            a <= b <= chars.len(),
            trail(chars@, c, a as int, b as int) == trail(chars@, c, a as int, chars.len() as int),
        decreases b,
    {
        b = b - 1;
    }
    let mut out: Vec<char> = Vec::new();
    let mut k = a;
    while k < b
        invariant
            a <= k <= b <= chars.len(),
            out@ == chars@.subrange(a as int, k as int),
        decreases b - k,
    {
        out.push(chars[k]);
        proof {
            assert(out@ =~= chars@.subrange(a as int, k + 1));
        }
        k = k + 1;
    }
    from_chars(&out)
}

/// An untagged, unmarked expression of the form `kind`.
pub open spec fn plain_node(kind: KindView) -> NodeView {
    NodeView { kind, tag: Seq::<char>::empty(), remark: false }
}

/// The one member of `list`, or the choice (for `choice`) or sequence of
/// its members.
pub open spec fn combined(choice: bool, list: Seq<NodeView>) -> NodeView {
    if list.len() == 1 {
        list[0]
    } else if choice {
        plain_node(KindView::Choice { branches: list })
    } else {
        plain_node(KindView::Concat { terms: list })
    }
}

/// The operators that the signs after a term stand for.
pub open spec fn suffix_ops(s: Seq<SuffixNode>) -> Seq<Operator> {
    Seq::new(
        s.len(),
        |i: int|
            match s[i] {
                SuffixNode::Suffix0 => Operator::Optional,
                SuffixNode::Suffix1 => Operator::Repeats,
                SuffixNode::Suffix2 => Operator::Repeat1,
            },
    )
}

/// The operators that the signs before a term stand for, from the sign at
/// `k` on, the innermost first.
pub open spec fn prefix_ops(p: Seq<PrefixNode>, k: nat) -> Seq<Operator>
    decreases p.len() - k,
{
    if k >= p.len() {
        Seq::<Operator>::empty()
    } else {
        prefix_ops(p, k + 1) + match p[k as int] {
            PrefixNode::Prefix0 => seq![Operator::Negative],
            PrefixNode::Prefix1 => seq![Operator::Positive],
            PrefixNode::Prefix2 => Seq::<Operator>::empty(),
        }
    }
}

/// True when one of the signs from `k` on is `^`.
pub open spec fn has_mark(p: Seq<PrefixNode>, k: nat) -> bool
    decreases p.len() - k,
{
    if k >= p.len() {
        false
    } else {
        p[k as int] == PrefixNode::Prefix2 || has_mark(p, k + 1)
    }
}

/// `base` between the signs `prefix` and `suffix`.
pub open spec fn with_signs(base: NodeView, prefix: Seq<PrefixNode>, suffix: Seq<SuffixNode>) -> NodeView {
    let ops = suffix_ops(suffix) + prefix_ops(prefix, 0);
    let marked = NodeView { remark: base.remark || has_mark(prefix, 0), ..base };
    if ops.len() == 0 {
        marked
    } else {
        plain_node(KindView::Unary { base: Box::new(marked), ops })
    }
}

/// The text between the quotes of a string.
pub open spec fn string_text(s: StringNode) -> Seq<char> {
    match s {
        StringNode::String0(t) => trimmed(t@, '\''),
        StringNode::String1(t) => trimmed(t@, '"'),
    }
}

/// The regular expression with the source text `raw` at the place of `t`,
/// compiled, or the error that it cannot be compiled.
pub open spec fn regex_view(raw: Seq<char>, t: TextNode) -> Result<NodeView, GrammarErrorView> {
    match compiled_tables(anchored(raw)) {
        Some(tables) => Ok(
            plain_node(
                KindView::Data {
                    data: DataView::Regex(RegexView { raw, span: (t.start, t.end), tables }),
                },
            ),
        ),
        None => Err(custom("invalid regular expression"@, t.start, t.end)),
    }
}

/// What the first `k` of `s` are built to, or the first error.
pub open spec fn or_row(s: Seq<ExpressionNode>, k: nat) -> Result<Seq<NodeView>, GrammarErrorView>
    decreases s, k,
{
    if k == 0 || k > s.len() {
        Ok(Seq::<NodeView>::empty())
    } else {
        match or_row(s, (k - 1) as nat) {
            Err(e) => Err(e),
            Ok(list) => match or_view(s[k - 1]) {
                Err(e) => Err(e),
                Ok(n) => Ok(list.push(n)),
            },
        }
    }
}

/// What the first `k` of `s` are built to, or the first error.
pub open spec fn hard_row(s: Seq<ExpressionHardNode>, k: nat) -> Result<Seq<NodeView>, GrammarErrorView>
    decreases s, k,
{
    if k == 0 || k > s.len() {
        Ok(Seq::<NodeView>::empty())
    } else {
        match hard_row(s, (k - 1) as nat) {
            Err(e) => Err(e),
            Ok(list) => match hard_view(s[k - 1]) {
                Err(e) => Err(e),
                Ok(n) => Ok(list.push(n)),
            },
        }
    }
}

/// What the first `k` of `s` are built to, or the first error.
pub open spec fn soft_row(s: Seq<ExpressionSoftNode>, k: nat) -> Result<Seq<NodeView>, GrammarErrorView>
    decreases s, k,
{
    if k == 0 || k > s.len() {
        Ok(Seq::<NodeView>::empty())
    } else {
        match soft_row(s, (k - 1) as nat) {
            Err(e) => Err(e),
            Ok(list) => match soft_view(s[k - 1]) {
                Err(e) => Err(e),
                Ok(n) => Ok(list.push(n)),
            },
        }
    }
}

/// What the first `k` of `s` are built to, or the first error.
pub open spec fn tag_row(s: Seq<ExpressionTagNode>, k: nat) -> Result<Seq<NodeView>, GrammarErrorView>
    decreases s, k,
{
    if k == 0 || k > s.len() {
        Ok(Seq::<NodeView>::empty())
    } else {
        match tag_row(s, (k - 1) as nat) {
            Err(e) => Err(e),
            Ok(list) => match tagged_view(s[k - 1]) {
                Err(e) => Err(e),
                Ok(n) => Ok(list.push(n)),
            },
        }
    }
}

/// What an atomic part is built to.
pub open spec fn atomic_view(a: AtomicNode) -> Result<NodeView, GrammarErrorView>
    decreases a,
{
    match a {
        AtomicNode::Atomic0(e) => or_view(*e),
        AtomicNode::Boolean(b) => Ok(
            plain_node(KindView::Data { data: DataView::Boolean(b == BooleanNode::Boolean0) }),
        ),
        AtomicNode::FunctionCall(f) => match or_row(f.args@, f.args@.len()) {
            Err(e) => Err(e),
            Ok(args) => Ok(plain_node(KindView::Function { name: f.name.text@, args })),
        },
        AtomicNode::Identifier(id) => Ok(plain_node(KindView::Rule { name: id.text@, boxed: false })),
        AtomicNode::RegexEmbed(t) => regex_view(trimmed(t.text@, '/'), t),
        AtomicNode::RegexRange(t) => regex_view(t.text@, t),
        AtomicNode::String(s) => Ok(plain_node(KindView::Data { data: DataView::Text(string_text(s)) })),
    }
}

/// What a term is built to.
pub open spec fn term_view(t: TermNode) -> Result<NodeView, GrammarErrorView>
    decreases t,
{
    match atomic_view(t.atomic) {
        Err(e) => Err(e),
        Ok(base) => Ok(with_signs(base, t.prefix@, t.suffix@)),
    }
}

/// The name that a term gives as a tag: the term is an identifier without
/// signs.
pub open spec fn tag_name(t: TermNode) -> Option<Seq<char>> {
    if t.prefix@.len() == 0 && t.suffix@.len() == 0 && t.atomic is Identifier {
        Some(t.atomic->Identifier_0.text@)
    } else {
        None
    }
}

/// What a term with or without a tag is built to.
pub open spec fn tagged_view(t: ExpressionTagNode) -> Result<NodeView, GrammarErrorView>
    decreases t,
{
    if t.term@.len() == 1 {
        term_view(t.term@[0])
    } else if t.term@.len() == 2 {
        match tag_name(t.term@[0]) {
            None => Err(bad_tag(""@, t.start, t.end)),
            Some(name) => match term_view(t.term@[1]) {
                Err(e) => Err(e),
                Ok(n) => Ok(NodeView { tag: name, ..n }),
            },
        }
    } else {
        Err(custom("a term or a tag and a term were expected"@, t.start, t.end))
    }
}

/// What a row of tagged terms is built to.
pub open spec fn soft_view(s: ExpressionSoftNode) -> Result<NodeView, GrammarErrorView>
    decreases s,
{
    match tag_row(s.expression_tag@, s.expression_tag@.len()) {
        Err(e) => Err(e),
        Ok(list) => if list.len() == 0 {
            Err(custom("empty row of terms"@, s.start, s.end))
        } else {
            Ok(combined(false, list))
        },
    }
}

/// What rows of terms are built to.
pub open spec fn hard_view(h: ExpressionHardNode) -> Result<NodeView, GrammarErrorView>
    decreases h,
{
    match soft_row(h.expression_soft@, h.expression_soft@.len()) {
        Err(e) => Err(e),
        Ok(list) => if list.len() == 0 {
            Err(custom("empty sequence"@, h.start, h.end))
        } else {
            Ok(combined(false, list))
        },
    }
}

/// What an expression is built to.
pub open spec fn or_view(e: ExpressionNode) -> Result<NodeView, GrammarErrorView>
    decreases e,
{
    match hard_row(e.expression_hard@, e.expression_hard@.len()) {
        Err(e2) => Err(e2),
        Ok(list) => if list.len() == 0 {
            Err(custom("empty choice"@, e.start, e.end))
        } else {
            Ok(combined(true, list))
        },
    }
}

/// True when `r` is what `model` holds, for an expression or an error.
pub open spec fn gives(
    r: Result<crate::ir::expression::ExpressionNode, GrammarError>,
    model: Result<NodeView, GrammarErrorView>,
) -> bool {
    match r {
        Ok(e) => model == Ok::<NodeView, GrammarErrorView>(e@),
        Err(err) => model == Err::<NodeView, GrammarErrorView>(err@),
    }
}

/// True when `r` is what `model` holds, for a row of expressions or an error.
pub open spec fn gives_row(
    r: Result<Vec<crate::ir::expression::ExpressionNode>, GrammarError>,
    model: Result<Seq<NodeView>, GrammarErrorView>,
) -> bool {
    match r {
        Ok(v) => model == Ok::<Seq<NodeView>, GrammarErrorView>(node_views(v@)),
        Err(err) => model == Err::<Seq<NodeView>, GrammarErrorView>(err@),
    }
}

/// The one member of `list`, or the choice (for `choice`) or sequence of
/// its members.
fn combine(choice: bool, list: Vec<crate::ir::expression::ExpressionNode>) -> (r:
    crate::ir::expression::ExpressionNode)
    ensures
        r@ == combined(choice, node_views(list@)),
{
    let mut list = list;
    proof {
        lemma_node_views(list@);
    }
    if list.len() == 1 {
        match list.pop() {
            Some(only) => only,
            None => crate::ir::expression::ExpressionNode::concat(Vec::new()),
        }
    } else if choice {
        crate::ir::expression::ExpressionNode::choice(list)
    } else {
        crate::ir::expression::ExpressionNode::concat(list)
    }
}

/// The regular expression with the source text `raw` at the place of `t`,
/// compiled.
fn build_regex(raw: &str, t: &TextNode) -> (r: Result<
    crate::ir::expression::ExpressionNode,
    GrammarError,
>)
    ensures
        gives(r, regex_view(raw@, *t)),
{
    let mut regex = YggdrasilRegex::new(raw, t.start, t.end);
    match regex.build() {
        Ok(()) => Ok(
            crate::ir::expression::ExpressionNode::new(
                ExpressionKind::Data(Box::new(DataKind::Regex(regex))),
            ),
        ),
        Err(_) => Err(GrammarError::custom_error("invalid regular expression", t.start, t.end)),
    }
}

/// What the members of `nodes` are built to, or the first error.
fn build_or_row(nodes: &Vec<ExpressionNode>) -> (r: Result<
    Vec<crate::ir::expression::ExpressionNode>,
    GrammarError,
>)
    ensures
        gives_row(r, or_row(nodes@, nodes@.len())),
    decreases nodes@,
{
    let mut out: Vec<crate::ir::expression::ExpressionNode> = Vec::new();
    let mut i: usize = 0;
    proof {
        lemma_node_views(out@);
        assert(node_views(out@) =~= Seq::<NodeView>::empty());
    }
    while i < nodes.len()
        invariant
            i <= nodes.len(),
            or_row(nodes@, i as nat) == Ok::<Seq<NodeView>, GrammarErrorView>(node_views(out@)),
        decreases nodes.len() - i,
    {
        match build_or(&nodes[i]) {
            Ok(n) => {
                proof {
                    lemma_node_views_push(out@, n);
                }
                out.push(n);
            },
            Err(e) => {
                proof {
                    lemma_or_row_fails(nodes@, (i + 1) as nat, nodes@.len());
                }
                return Err(e);
            },
        }
        i = i + 1;
    }
    Ok(out)
}

/// An error among the first members is the error of more of them.
proof fn lemma_or_row_fails(s: Seq<ExpressionNode>, k: nat, n: nat)
    requires
        k <= n <= s.len(),
        or_row(s, k) is Err,
    ensures
        or_row(s, n) == or_row(s, k),
    decreases n - k,
{
    if k < n {
        lemma_or_row_fails(s, k, (n - 1) as nat);
    }
}

/// An error among the first members is the error of more of them.
proof fn lemma_hard_row_fails(s: Seq<ExpressionHardNode>, k: nat, n: nat)
    requires
        k <= n <= s.len(),
        hard_row(s, k) is Err,
    ensures
        hard_row(s, n) == hard_row(s, k),
    decreases n - k,
{
    if k < n {
        lemma_hard_row_fails(s, k, (n - 1) as nat);
    }
}

/// An error among the first members is the error of more of them.
proof fn lemma_soft_row_fails(s: Seq<ExpressionSoftNode>, k: nat, n: nat)
    requires
        k <= n <= s.len(),
        soft_row(s, k) is Err,
    ensures
        soft_row(s, n) == soft_row(s, k),
    decreases n - k,
{
    if k < n {
        lemma_soft_row_fails(s, k, (n - 1) as nat);
    }
}

/// An error among the first members is the error of more of them.
proof fn lemma_tag_row_fails(s: Seq<ExpressionTagNode>, k: nat, n: nat)
    requires
        k <= n <= s.len(),
        tag_row(s, k) is Err,
    ensures
        tag_row(s, n) == tag_row(s, k),
    decreases n - k,
{
    if k < n {
        lemma_tag_row_fails(s, k, (n - 1) as nat);
    }
}

/// What an atomic part is built to.
pub fn build_atomic(a: &AtomicNode) -> (r: Result<crate::ir::expression::ExpressionNode, GrammarError>)
    ensures
        gives(r, atomic_view(*a)),
    decreases *a,
{
    match a {
        AtomicNode::Atomic0(e) => build_or(e),
        AtomicNode::Boolean(b) => {
            let value = match b {
                BooleanNode::Boolean0 => true,
                BooleanNode::Boolean1 => false,
            };
            Ok(
                crate::ir::expression::ExpressionNode::new(
                    ExpressionKind::Data(Box::new(DataKind::Boolean(value))),
                ),
            )
        },
        AtomicNode::FunctionCall(f) => {
            match build_or_row(&f.args) {
                Ok(args) => Ok(
                    crate::ir::expression::ExpressionNode::new(
                        ExpressionKind::Function(
                            Box::new(FunctionExpression { name: f.name.text.clone(), args }),
                        ),
                    ),
                ),
                Err(e) => Err(e),
            }
        },
        AtomicNode::Identifier(id) => Ok(
            crate::ir::expression::ExpressionNode::rule(id.text.as_str()),
        ),
        AtomicNode::RegexEmbed(t) => {
            let raw = trim(t.text.as_str(), '/');
            build_regex(raw.as_str(), t)
        },
        AtomicNode::RegexRange(t) => build_regex(t.text.as_str(), t),
        AtomicNode::String(s) => {
            let text = match s {
                StringNode::String0(t) => trim(t.as_str(), '\''),
                StringNode::String1(t) => trim(t.as_str(), '"'),
            };
            Ok(crate::ir::expression::ExpressionNode::text(text.as_str()))
        },
    }
}

/// What a term is built to.
pub fn build_term(t: &TermNode) -> (r: Result<crate::ir::expression::ExpressionNode, GrammarError>)
    ensures
        gives(r, term_view(*t)),
    decreases *t,
{
    let base = match build_atomic(&t.atomic) {
        Ok(b) => b,
        Err(e) => {
            return Err(e);
        },
    };
    let mut ops: Vec<Operator> = Vec::new();
    let mut i: usize = 0;
    while i < t.suffix.len()
        invariant
            i <= t.suffix.len(),
            ops@ == suffix_ops(t.suffix@).take(i as int),
        decreases t.suffix.len() - i,
    {
        let op = match t.suffix[i] {
            SuffixNode::Suffix0 => Operator::Optional,
            SuffixNode::Suffix1 => Operator::Repeats,
            SuffixNode::Suffix2 => Operator::Repeat1,
        };
        ops.push(op);
        proof {
            assert(ops@ =~= suffix_ops(t.suffix@).take(i + 1));
        }
        i = i + 1;
    }
    proof {
        assert(suffix_ops(t.suffix@).take(t.suffix.len() as int) =~= suffix_ops(t.suffix@));
        assert(ops@ + prefix_ops(t.prefix@, t.prefix@.len()) =~= ops@);
    }
    let mut marked = false;
    let mut k: usize = t.prefix.len();
    while k > 0
        invariant
            k <= t.prefix.len(),
            ops@ == suffix_ops(t.suffix@) + prefix_ops(t.prefix@, k as nat),
            marked == has_mark(t.prefix@, k as nat),
        decreases k,
    {
        k = k - 1;
        let ghost before = ops@;
        match t.prefix[k] {
            PrefixNode::Prefix0 => {
                ops.push(Operator::Negative);
            },
            PrefixNode::Prefix1 => {
                ops.push(Operator::Positive);
            },
            PrefixNode::Prefix2 => {
                marked = true;
            },
        }
        proof {
            assert(ops@ =~= suffix_ops(t.suffix@) + prefix_ops(t.prefix@, k as nat));
        }
    }
    let crate::ir::expression::ExpressionNode { kind, tag, remark } = base;
    let base = crate::ir::expression::ExpressionNode { kind, tag, remark: remark || marked };
    if ops.len() == 0 {
        Ok(base)
    } else {
        Ok(
            crate::ir::expression::ExpressionNode::new(
                ExpressionKind::Unary(Box::new(UnaryExpression { base, ops })),
            ),
        )
    }
}

/// The name that a term gives as a tag.
fn tag_of(t: &TermNode) -> (r: Option<&String>)
    ensures
        match r {
            Some(s) => tag_name(*t) == Some(s@),
            None => tag_name(*t) is None,
        },
{
    if t.prefix.len() == 0 && t.suffix.len() == 0 {
        match &t.atomic {
            AtomicNode::Identifier(id) => Some(&id.text),
            _ => None,
        }
    } else {
        None
    }
}

/// What a term with or without a tag is built to.
pub fn build_tag_node(t: &ExpressionTagNode) -> (r: Result<
    crate::ir::expression::ExpressionNode,
    GrammarError,
>)
    ensures
        gives(r, tagged_view(*t)),
    decreases *t,
{
    if t.term.len() == 1 {
        build_term(&t.term[0])
    } else if t.term.len() == 2 {
        match tag_of(&t.term[0]) {
            None => Err(GrammarError::invalid_tag("", t.start, t.end)),
            Some(name) => match build_term(&t.term[1]) {
                Err(e) => Err(e),
                Ok(n) => {
                    let crate::ir::expression::ExpressionNode { kind, tag, remark } = n;
                    Ok(crate::ir::expression::ExpressionNode { kind, tag: name.clone(), remark })
                },
            },
        }
    } else {
        Err(GrammarError::custom_error("a term or a tag and a term were expected", t.start, t.end))
    }
}

/// What a row of tagged terms is built to.
pub fn build_soft(s: &ExpressionSoftNode) -> (r: Result<
    crate::ir::expression::ExpressionNode,
    GrammarError,
>)
    ensures
        gives(r, soft_view(*s)),
    decreases *s,
{
    let nodes = &s.expression_tag;
    let mut out: Vec<crate::ir::expression::ExpressionNode> = Vec::new();
    let mut i: usize = 0;
    proof {
        lemma_node_views(out@);
        assert(node_views(out@) =~= Seq::<NodeView>::empty());
    }
    while i < nodes.len()
        invariant
            i <= nodes.len(),
            nodes == &s.expression_tag,
            tag_row(nodes@, i as nat) == Ok::<Seq<NodeView>, GrammarErrorView>(node_views(out@)),
        decreases nodes.len() - i,
    {
        match build_tag_node(&nodes[i]) {
            Ok(n) => {
                proof {
                    lemma_node_views_push(out@, n);
                }
                out.push(n);
            },
            Err(e) => {
                proof {
                    lemma_tag_row_fails(nodes@, (i + 1) as nat, nodes@.len());
                }
                return Err(e);
            },
        }
        i = i + 1;
    }
    proof {
        lemma_node_views(out@);
    }
    if out.len() == 0 {
        Err(GrammarError::custom_error("empty row of terms", s.start, s.end))
    } else {
        Ok(combine(false, out))
    }
}

/// What rows of terms are built to.
pub fn build_hard(h: &ExpressionHardNode) -> (r: Result<
    crate::ir::expression::ExpressionNode,
    GrammarError,
>)
    ensures
        gives(r, hard_view(*h)),
    decreases *h,
{
    let nodes = &h.expression_soft;
    let mut out: Vec<crate::ir::expression::ExpressionNode> = Vec::new();
    let mut i: usize = 0;
    proof {
        lemma_node_views(out@);
        assert(node_views(out@) =~= Seq::<NodeView>::empty());
    }
    while i < nodes.len()
        invariant
            i <= nodes.len(),
            nodes == &h.expression_soft,
            soft_row(nodes@, i as nat) == Ok::<Seq<NodeView>, GrammarErrorView>(node_views(out@)),
        decreases nodes.len() - i,
    {
        match build_soft(&nodes[i]) {
            Ok(n) => {
                proof {
                    lemma_node_views_push(out@, n);
                }
                out.push(n);
            },
            Err(e) => {
                proof {
                    lemma_soft_row_fails(nodes@, (i + 1) as nat, nodes@.len());
                }
                return Err(e);
            },
        }
        i = i + 1;
    }
    proof {
        lemma_node_views(out@);
    }
    if out.len() == 0 {
        Err(GrammarError::custom_error("empty sequence", h.start, h.end))
    } else {
        Ok(combine(false, out))
    }
}

/// What an expression is built to.
pub fn build_or(e: &ExpressionNode) -> (r: Result<crate::ir::expression::ExpressionNode, GrammarError>)
    ensures
        gives(r, or_view(*e)),
    decreases *e,
{
    let nodes = &e.expression_hard;
    let mut out: Vec<crate::ir::expression::ExpressionNode> = Vec::new();
    let mut i: usize = 0;
    proof {
        lemma_node_views(out@);
        assert(node_views(out@) =~= Seq::<NodeView>::empty());
    }
    while i < nodes.len()
        invariant
            i <= nodes.len(),
            nodes == &e.expression_hard,
            hard_row(nodes@, i as nat) == Ok::<Seq<NodeView>, GrammarErrorView>(node_views(out@)),
        decreases nodes.len() - i,
    {
        match build_hard(&nodes[i]) {
            Ok(n) => {
                proof {
                    lemma_node_views_push(out@, n);
                }
                out.push(n);
            },
            Err(err) => {
                proof {
                    lemma_hard_row_fails(nodes@, (i + 1) as nat, nodes@.len());
                }
                return Err(err);
            },
        }
        i = i + 1;
    }
    proof {
        lemma_node_views(out@);
    }
    if out.len() == 0 {
        Err(GrammarError::custom_error("empty choice", e.start, e.end))
    } else {
        Ok(combine(true, out))
    }
}

} // verus!
