//! Expressions: the bodies of rules.
//!
//! Every type has a view, a value of a mathematical model of the tree, which
//! contracts speak of. Two expressions with the same view are structurally
//! equal.

use crate::ir::regex::{RegexView, YggdrasilRegex};
use crate::strings::same_text;
use vstd::prelude::*;

verus! {

/// What is applied to an expression.
#[derive(Clone, Copy, Debug, PartialEq, Eq)]
pub enum Operator {
    /// `!e`: matches where `e` does not, and consumes nothing.
    Negative,
    /// `&e`: matches where `e` does, and consumes nothing.
    Positive,
    /// `e?`
    Optional,
    /// `e*`
    Repeats,
    /// `e+`
    Repeat1,
    /// Marks a field that an emitter may allocate on the heap.
    Boxing,
    /// `e{min,max}`, each bound optional.
    RepeatsBetween(Option<u8>, Option<u8>),
    /// `^e`: keeps the node where unmarked nodes are eliminated.
    Remark,
    /// `*e`
    Recursive,
}

/// A call of a built-in function.
#[derive(Debug)]
pub struct FunctionExpression {
    /// Name of the function.
    pub name: String,
    /// Its arguments.
    pub args: Vec<ExpressionNode>,
}

/// An ordered choice.
#[derive(Debug)]
pub struct ChoiceExpression {
    /// The alternatives, in the order in which they are tried.
    pub branches: Vec<ExpressionNode>,
}

/// A sequence.
#[derive(Debug)]
pub struct ConcatExpression {
    /// The terms, in the order in which they are matched.
    pub terms: Vec<ExpressionNode>,
}

/// An expression with operators applied to it, the innermost first.
#[derive(Debug)]
pub struct UnaryExpression {
    /// What the operators are applied to.
    pub base: ExpressionNode,
    /// The operators, the innermost first.
    pub ops: Vec<Operator>,
}

/// A reference to a rule by its name.
#[derive(Clone, Debug)]
pub struct RuleReference {
    /// Name of the rule.
    pub name: String,
    /// True when an emitter is to allocate the field on the heap.
    pub boxed: bool,
}

/// A literal.
#[derive(Debug)]
pub enum DataKind {
    /// A text that is matched as it is.
    Text(String),
    /// A regular expression.
    Regex(YggdrasilRegex),
    /// A number.
    Integer(i64),
    /// A truth value: what always matches, or never.
    Boolean(bool),
    /// One code point.
    Character(char),
    /// One code point between two, both included.
    CharacterRange(char, char),
    /// One code point of one of several ranges.
    CharacterSet(Vec<(char, char)>),
}

/// The forms of an expression.
#[derive(Debug)]
pub enum ExpressionKind {
    /// A call of a built-in function.
    Function(Box<FunctionExpression>),
    /// An ordered choice.
    Choice(Box<ChoiceExpression>),
    /// A sequence.
    Concat(Box<ConcatExpression>),
    /// An expression under operators.
    Unary(Box<UnaryExpression>),
    /// A reference to a rule.
    Rule(Box<RuleReference>),
    /// A literal.
    Data(Box<DataKind>),
}

/// An expression: its form, its tag (empty where it has none), and whether
/// the grammar marked it with `^`.
#[derive(Debug)]
pub struct ExpressionNode {
    /// The form.
    pub kind: ExpressionKind,
    /// The tag, empty for an untagged expression.
    pub tag: String,
    /// True when the expression is marked.
    pub remark: bool,
}

/// The model of a literal.
pub enum DataView {
    /// A text.
    Text(Seq<char>),
    /// A regular expression.
    Regex(RegexView),
    /// A number.
    Integer(int),
    /// A truth value.
    Boolean(bool),
    /// One code point.
    Character(char),
    /// A range of code points.
    CharacterRange(char, char),
    /// Several ranges of code points.
    CharacterSet(Seq<(char, char)>),
}

/// The model of the form of an expression.
pub enum KindView {
    /// A call of a built-in function.
    Function { name: Seq<char>, args: Seq<NodeView> },
    /// An ordered choice.
    Choice { branches: Seq<NodeView> },
    /// A sequence.
    Concat { terms: Seq<NodeView> },
    /// An expression under operators.
    Unary { base: Box<NodeView>, ops: Seq<Operator> },
    /// A reference to a rule.
    Rule { name: Seq<char>, boxed: bool },
    /// A literal.
    Data { data: DataView },
}

/// The model of an expression.
pub struct NodeView {
    /// The form.
    pub kind: KindView,
    /// The tag.
    pub tag: Seq<char>,
    /// True when the expression is marked.
    pub remark: bool,
}

impl DataKind {
    /// The model of the literal.
    pub open spec fn view(&self) -> DataView {
        match *self {
            DataKind::Text(s) => DataView::Text(s@),
            DataKind::Regex(r) => DataView::Regex(r@),
            DataKind::Integer(n) => DataView::Integer(n as int),
            DataKind::Boolean(b) => DataView::Boolean(b),
            DataKind::Character(c) => DataView::Character(c),
            DataKind::CharacterRange(a, b) => DataView::CharacterRange(a, b),
            DataKind::CharacterSet(v) => DataView::CharacterSet(v@),
        }
    }

    /// A copy of the literal.
    pub fn duplicate(&self) -> (d: DataKind)
        ensures
            d@ == self@,
    {
        match self {
            DataKind::Text(s) => DataKind::Text(s.clone()),
            DataKind::Regex(r) => DataKind::Regex(r.duplicate()),
            DataKind::Integer(n) => DataKind::Integer(*n),
            DataKind::Boolean(b) => DataKind::Boolean(*b),
            DataKind::Character(c) => DataKind::Character(*c),
            DataKind::CharacterRange(a, b) => DataKind::CharacterRange(*a, *b),
            DataKind::CharacterSet(v) => {
                let mut out: Vec<(char, char)> = Vec::new();
                let mut i: usize = 0;
                while i < v.len()
                    invariant
                        i <= v.len(),
                        out@ == v@.take(i as int),
                    decreases v.len() - i,
                {
                    out.push(v[i]);
                    proof {
                        assert(out@ =~= v@.take(i + 1));
                    }
                    i = i + 1;
                }
                proof {
                    assert(v@.take(v.len() as int) =~= v@);
                }
                DataKind::CharacterSet(out)
            },
        }
    }
}

/// The models of the expressions of `s` from index `i` on.
pub open spec fn views_from(s: Seq<ExpressionNode>, i: nat) -> Seq<NodeView>
    decreases s, s.len() - i,
{
    if i >= s.len() {
        Seq::<NodeView>::empty()
    } else {
        seq![node_view(s[i as int])] + views_from(s, i + 1)
    }
}

/// The models of the expressions of `s`.
pub open spec fn node_views(s: Seq<ExpressionNode>) -> Seq<NodeView> {
    views_from(s, 0)
}

/// The model of the form `k`.
pub open spec fn kind_view(k: ExpressionKind) -> KindView
    decreases k,
{
    match k {
        ExpressionKind::Function(f) => KindView::Function {
            name: f.name@,
            args: views_from(f.args@, 0),
        },
        ExpressionKind::Choice(c) => KindView::Choice { branches: views_from(c.branches@, 0) },
        ExpressionKind::Concat(c) => KindView::Concat { terms: views_from(c.terms@, 0) },
        ExpressionKind::Unary(u) => KindView::Unary {
            base: Box::new(node_view(u.base)),
            ops: u.ops@,
        },
        ExpressionKind::Rule(r) => KindView::Rule { name: r.name@, boxed: r.boxed },
        ExpressionKind::Data(d) => KindView::Data { data: d@ },
    }
}

/// The model of the expression `e`.
pub open spec fn node_view(e: ExpressionNode) -> NodeView
    decreases e,
{
    NodeView { kind: kind_view(e.kind), tag: e.tag@, remark: e.remark }
}

/// The models of a row of expressions are the models of its members.
pub proof fn lemma_node_views(s: Seq<ExpressionNode>)
    ensures
        node_views(s).len() == s.len(),
        forall|k: int| 0 <= k < s.len() ==> (#[trigger] node_views(s)[k]) == node_view(s[k]),
{
    lemma_views_from(s, 0);
}

/// The models from an index on are the models of the members from there.
pub proof fn lemma_views_from(s: Seq<ExpressionNode>, i: nat)
    requires
        i <= s.len(),
    ensures
        views_from(s, i).len() == s.len() - i,
        forall|k: int|
            0 <= k < s.len() - i ==> (#[trigger] views_from(s, i)[k]) == node_view(s[i + k]),
    decreases s.len() - i,
{
    if i < s.len() {
        lemma_views_from(s, i + 1);
        let rest = views_from(s, i + 1);
        assert forall|k: int| 0 <= k < s.len() - i implies (#[trigger] views_from(s, i)[k])
            == node_view(s[i + k]) by {
            if k > 0 {
                assert(views_from(s, i)[k] == rest[k - 1]);
            }
        }
    }
}

/// The models of a row with one more member.
pub proof fn lemma_node_views_push(s: Seq<ExpressionNode>, e: ExpressionNode)
    ensures
        node_views(s.push(e)) == node_views(s).push(node_view(e)),
{
    lemma_node_views(s);
    lemma_node_views(s.push(e));
    assert(node_views(s.push(e)) =~= node_views(s).push(node_view(e)));
}

impl View for ExpressionNode {
    type V = NodeView;

    open spec fn view(&self) -> NodeView {
        node_view(*self)
    }
}

/// True when two operators are the same.
pub fn same_operator(a: Operator, b: Operator) -> (eq: bool)
    ensures
        eq == (a == b),
{
    match (a, b) {
        (Operator::Negative, Operator::Negative) => true,
        (Operator::Positive, Operator::Positive) => true,
        (Operator::Optional, Operator::Optional) => true,
        (Operator::Repeats, Operator::Repeats) => true,
        (Operator::Repeat1, Operator::Repeat1) => true,
        (Operator::Boxing, Operator::Boxing) => true,
        (Operator::Remark, Operator::Remark) => true,
        (Operator::Recursive, Operator::Recursive) => true,
        (Operator::RepeatsBetween(a1, a2), Operator::RepeatsBetween(b1, b2)) => {
            let first = match (a1, b1) {
                (Some(x), Some(y)) => x == y,
                (None, None) => true,
                _ => false,
            };
            let second = match (a2, b2) {
                (Some(x), Some(y)) => x == y,
                (None, None) => true,
                _ => false,
            };
            first && second
        },
        _ => false,
    }
}

impl Operator {
    /// The operator that the sign `o` stands for before an expression:
    /// `!`, `&`, `^` or `*`.
    pub fn prefix(o: &str) -> (op: Operator)
        requires
            o@ == "!"@ || o@ == "&"@ || o@ == "^"@ || o@ == "*"@,
        ensures
            op == prefix_operator(o@),
    {
        if same_text(o, "!") {
            Operator::Negative
        } else if same_text(o, "&") {
            Operator::Positive
        } else if same_text(o, "^") {
            Operator::Remark
        } else {
            Operator::Recursive
        }
    }

    /// The operator that the sign `o` stands for after an expression: `?`,
    /// `*` or `+`.
    pub fn suffix(o: &str) -> (op: Operator)
        requires
            o@ == "?"@ || o@ == "*"@ || o@ == "+"@,
        ensures
            op == suffix_operator(o@),
    {
        if same_text(o, "?") {
            Operator::Optional
        } else if same_text(o, "*") {
            Operator::Repeats
        } else {
            Operator::Repeat1
        }
    }
}

/// The operator that a sign stands for before an expression.
pub open spec fn prefix_operator(o: Seq<char>) -> Operator {
    if o == "!"@ {
        Operator::Negative
    } else if o == "&"@ {
        Operator::Positive
    } else if o == "^"@ {
        Operator::Remark
    } else {
        Operator::Recursive
    }
}

/// The operator that a sign stands for after an expression.
pub open spec fn suffix_operator(o: Seq<char>) -> Operator {
    if o == "?"@ {
        Operator::Optional
    } else if o == "*"@ {
        Operator::Repeats
    } else {
        Operator::Repeat1
    }
}

/// A copy of a row of operators.
pub fn copy_operators(ops: &Vec<Operator>) -> (out: Vec<Operator>)
    ensures
        out@ == ops@,
{
    let mut out: Vec<Operator> = Vec::new();
    let mut i: usize = 0;
    while i < ops.len()
        invariant
            i <= ops.len(),
            out@ == ops@.take(i as int),
        decreases ops.len() - i,
    {
        out.push(ops[i]);
        proof {
            assert(out@ =~= ops@.take(i + 1));
        }
        i = i + 1;
    }
    proof {
        assert(ops@.take(ops.len() as int) =~= ops@);
    }
    out
}

/// Copies of a row of expressions.
pub fn copy_nodes(nodes: &Vec<ExpressionNode>) -> (out: Vec<ExpressionNode>)
    ensures
        node_views(out@) == node_views(nodes@),
    decreases nodes@,
{
    let mut out: Vec<ExpressionNode> = Vec::new();
    let mut i: usize = 0;
    proof {
        lemma_node_views(nodes@);
    }
    while i < nodes.len()
        invariant
            i <= nodes.len(),
            out.len() == i,
            forall|k: int| 0 <= k < i ==> node_view(out@[k]) == node_view(nodes@[k]),
        decreases nodes.len() - i,
    {
        let c = nodes[i].duplicate();
        out.push(c);
        i = i + 1;
    }
    proof {
        lemma_node_views(nodes@);
        lemma_node_views(out@);
        assert(node_views(out@) =~= node_views(nodes@));
    }
    out
}

impl ExpressionNode {
    /// An untagged, unmarked expression of the form `kind`.
    pub fn new(kind: ExpressionKind) -> (e: ExpressionNode)
        ensures
            e@ == (NodeView { kind: kind_view(kind), tag: Seq::<char>::empty(), remark: false }),
    {
        ExpressionNode { kind, tag: String::new(), remark: false }
    }

    /// A copy of the expression.
    pub fn duplicate(&self) -> (e: ExpressionNode)
        ensures
            e@ == self@,
        decreases *self,
    {
        let kind = match &self.kind {
            ExpressionKind::Function(f) => ExpressionKind::Function(
                Box::new(FunctionExpression { name: f.name.clone(), args: copy_nodes(&f.args) }),
            ),
            ExpressionKind::Choice(c) => ExpressionKind::Choice(
                Box::new(ChoiceExpression { branches: copy_nodes(&c.branches) }),
            ),
            ExpressionKind::Concat(c) => ExpressionKind::Concat(
                Box::new(ConcatExpression { terms: copy_nodes(&c.terms) }),
            ),
            ExpressionKind::Unary(u) => ExpressionKind::Unary(
                Box::new(UnaryExpression { base: u.base.duplicate(), ops: copy_operators(&u.ops) }),
            ),
            ExpressionKind::Rule(r) => ExpressionKind::Rule(
                Box::new(RuleReference { name: r.name.clone(), boxed: r.boxed }),
            ),
            ExpressionKind::Data(d) => ExpressionKind::Data(Box::new(d.duplicate())),
        };
        ExpressionNode { kind, tag: self.tag.clone(), remark: self.remark }
    }

    /// A reference to the rule `name`.
    pub fn rule(name: &str) -> (e: ExpressionNode)
        ensures
            e@ == (NodeView {
                kind: KindView::Rule { name: name@, boxed: false },
                tag: Seq::<char>::empty(),
                remark: false,
            }),
    {
        ExpressionNode::new(
            ExpressionKind::Rule(Box::new(RuleReference { name: name.to_owned(), boxed: false })),
        )
    }

    /// The text `text` as a literal.
    pub fn text(text: &str) -> (e: ExpressionNode)
        ensures
            e@ == (NodeView {
                kind: KindView::Data { data: DataView::Text(text@) },
                tag: Seq::<char>::empty(),
                remark: false,
            }),
    {
        ExpressionNode::new(ExpressionKind::Data(Box::new(DataKind::Text(text.to_owned()))))
    }

    /// The choice between `branches`.
    pub fn choice(branches: Vec<ExpressionNode>) -> (e: ExpressionNode)
        ensures
            e@ == (NodeView {
                kind: KindView::Choice { branches: node_views(branches@) },
                tag: Seq::<char>::empty(),
                remark: false,
            }),
    {
        ExpressionNode::new(ExpressionKind::Choice(Box::new(ChoiceExpression { branches })))
    }

    /// The sequence of `terms`.
    pub fn concat(terms: Vec<ExpressionNode>) -> (e: ExpressionNode)
        ensures
            e@ == (NodeView {
                kind: KindView::Concat { terms: node_views(terms@) },
                tag: Seq::<char>::empty(),
                remark: false,
            }),
    {
        ExpressionNode::new(ExpressionKind::Concat(Box::new(ConcatExpression { terms })))
    }

    /// `base` under the operator `o`. An untagged expression that is under
    /// operators already takes `o` as its outermost; any other expression
    /// becomes the base of a new, untagged one.
    pub fn unary(base: ExpressionNode, o: Operator) -> (e: ExpressionNode)
        ensures
            e@ == unary_view(base@, o),
    {
        let ExpressionNode { kind, tag, remark } = base;
        match kind {
            ExpressionKind::Unary(u) => {
                if tag.as_str().is_empty() {
                    let UnaryExpression { base: inner, ops } = *u;
                    let mut ops = ops;
                    ops.push(o);
                    ExpressionNode {
                        kind: ExpressionKind::Unary(Box::new(UnaryExpression { base: inner, ops })),
                        tag,
                        remark,
                    }
                } else {
                    let mut ops: Vec<Operator> = Vec::new();
                    ops.push(o);
                    let base = ExpressionNode { kind: ExpressionKind::Unary(u), tag, remark };
                    ExpressionNode::new(
                        ExpressionKind::Unary(Box::new(UnaryExpression { base, ops })),
                    )
                }
            },
            other => {
                let mut ops: Vec<Operator> = Vec::new();
                ops.push(o);
                let base = ExpressionNode { kind: other, tag, remark };
                ExpressionNode::new(ExpressionKind::Unary(Box::new(UnaryExpression { base, ops })))
            },
        }
    }

    /// The expression with `o` applied to it. An expression that is under
    /// operators already takes `o` as its outermost and keeps its tag; any
    /// other expression becomes the base of a new, untagged one.
    pub fn add_operator(self, o: Operator) -> (e: ExpressionNode)
        ensures
            e@ == added_view(self@, o),
    {
        let ExpressionNode { kind, tag, remark } = self;
        match kind {
            ExpressionKind::Unary(u) => {
                let UnaryExpression { base: inner, ops } = *u;
                let mut ops = ops;
                ops.push(o);
                ExpressionNode {
                    kind: ExpressionKind::Unary(Box::new(UnaryExpression { base: inner, ops })),
                    tag,
                    remark,
                }
            },
            other => {
                let mut ops: Vec<Operator> = Vec::new();
                ops.push(o);
                let base = ExpressionNode { kind: other, tag, remark };
                ExpressionNode::new(ExpressionKind::Unary(Box::new(UnaryExpression { base, ops })))
            },
        }
    }
}

/// The model of `base` under the operator `o`, as `unary` builds it.
pub open spec fn unary_view(base: NodeView, o: Operator) -> NodeView {
    match base.kind {
        KindView::Unary { base: inner, ops } if base.tag.len() == 0 => NodeView {
            kind: KindView::Unary { base: inner, ops: ops.push(o) },
            tag: base.tag,
            remark: base.remark,
        },
        _ => NodeView {
            kind: KindView::Unary { base: Box::new(base), ops: seq![o] },
            tag: Seq::<char>::empty(),
            remark: false,
        },
    }
}

/// The model of `base` with the operator `o` applied, as `add_operator`
/// builds it.
pub open spec fn added_view(base: NodeView, o: Operator) -> NodeView {
    match base.kind {
        KindView::Unary { base: inner, ops } => NodeView {
            kind: KindView::Unary { base: inner, ops: ops.push(o) },
            tag: base.tag,
            remark: base.remark,
        },
        _ => NodeView {
            kind: KindView::Unary { base: Box::new(base), ops: seq![o] },
            tag: Seq::<char>::empty(),
            remark: false,
        },
    }
}

/// True when two texts are the same.
fn same_string(a: &String, b: &String) -> (eq: bool)
    ensures
        eq == (a@ == b@),
{
    same_text(a.as_str(), b.as_str())
}

/// True when two rows of operators are the same.
pub fn same_operators(a: &Vec<Operator>, b: &Vec<Operator>) -> (eq: bool)
    ensures
        eq == (a@ == b@),
{
    if a.len() != b.len() {
        return false;
    }
    let mut i: usize = 0;
    while i < a.len()
        invariant
            i <= a.len(),
            a.len() == b.len(),
            forall|k: int| 0 <= k < i ==> a@[k] == b@[k],
        decreases a.len() - i,
    {
        if !same_operator(a[i], b[i]) {
            return false;
        }
        i = i + 1;
    }
    proof {
        assert(a@ =~= b@);
    }
    true
}

/// True when two rows of ranges are the same.
fn same_ranges(a: &Vec<(char, char)>, b: &Vec<(char, char)>) -> (eq: bool)
    ensures
        eq == (a@ == b@),
{
    if a.len() != b.len() {
        return false;
    }
    let mut i: usize = 0;
    while i < a.len()
        invariant
            i <= a.len(),
            a.len() == b.len(),
            forall|k: int| 0 <= k < i ==> a@[k] == b@[k],
        decreases a.len() - i,
    {
        if a[i].0 != b[i].0 || a[i].1 != b[i].1 {
            return false;
        }
        i = i + 1;
    }
    proof {
        assert(a@ =~= b@);
    }
    true
}

impl DataKind {
    /// True when the two literals have the same model.
    pub fn same(&self, other: &DataKind) -> (eq: bool)
        ensures
            eq == (self@ == other@),
    {
        match (self, other) {
            (DataKind::Text(a), DataKind::Text(b)) => same_string(a, b),
            (DataKind::Regex(a), DataKind::Regex(b)) => a.same_model(b),
            (DataKind::Integer(a), DataKind::Integer(b)) => *a == *b,
            (DataKind::Boolean(a), DataKind::Boolean(b)) => *a == *b,
            (DataKind::Character(a), DataKind::Character(b)) => *a == *b,
            (DataKind::CharacterRange(a, b), DataKind::CharacterRange(c, d)) => *a == *c && *b
                == *d,
            (DataKind::CharacterSet(a), DataKind::CharacterSet(b)) => same_ranges(a, b),
            _ => false,
        }
    }
}

/// True when two rows of expressions have the same models.
pub fn same_nodes(a: &Vec<ExpressionNode>, b: &Vec<ExpressionNode>) -> (eq: bool)
    ensures
        eq == (node_views(a@) == node_views(b@)),
    decreases a@,
{
    proof {
        lemma_node_views(a@);
        lemma_node_views(b@);
    }
    if a.len() != b.len() {
        return false;
    }
    let mut i: usize = 0;
    while i < a.len()
        invariant
            i <= a.len(),
            a.len() == b.len(),
            forall|k: int| 0 <= k < i ==> node_view(a@[k]) == node_view(b@[k]),
        decreases a.len() - i,
    {
        if !a[i].same(&b[i]) {
            proof {
                lemma_node_views(a@);
                lemma_node_views(b@);
                assert(node_views(a@)[i as int] != node_views(b@)[i as int]);
            }
            return false;
        }
        i = i + 1;
    }
    proof {
        lemma_node_views(a@);
        lemma_node_views(b@);
        assert(node_views(a@) =~= node_views(b@));
    }
    true
}

impl ExpressionNode {
    /// True when the two expressions have the same model: when they are
    /// structurally equal.
    pub fn same(&self, other: &ExpressionNode) -> (eq: bool)
        ensures
            eq == (self@ == other@),
        decreases *self,
    {
        if !same_string(&self.tag, &other.tag) || self.remark != other.remark {
            return false;
        }
        match (&self.kind, &other.kind) {
            (ExpressionKind::Function(a), ExpressionKind::Function(b)) => same_string(
                &a.name,
                &b.name,
            ) && same_nodes(&a.args, &b.args),
            (ExpressionKind::Choice(a), ExpressionKind::Choice(b)) => same_nodes(
                &a.branches,
                &b.branches,
            ),
            (ExpressionKind::Concat(a), ExpressionKind::Concat(b)) => same_nodes(
                &a.terms,
                &b.terms,
            ),
            (ExpressionKind::Unary(a), ExpressionKind::Unary(b)) => a.base.same(&b.base)
                && same_operators(&a.ops, &b.ops),
            (ExpressionKind::Rule(a), ExpressionKind::Rule(b)) => same_string(&a.name, &b.name)
                && a.boxed == b.boxed,
            (ExpressionKind::Data(a), ExpressionKind::Data(b)) => a.same(b),
            _ => false,
        }
    }
}

} // verus!
