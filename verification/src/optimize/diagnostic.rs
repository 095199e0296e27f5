//! What the optimiser has to say about a grammar.

use vstd::prelude::*;

verus! {

/// The kinds of remark.
#[derive(Clone, Copy, Debug, PartialEq, Eq, Structural)]
pub enum DiagnosticKind {
    /// A rule that nothing refers to was taken out.
    UnusedRule,
    /// A rule that was to be inlined refers to such a rule and stays.
    InlineRefused,
    /// A call of a function that is not built in.
    UnknownFunction,
    /// A rule that starts with a reference to itself.
    LeftRecursion,
}

/// A remark on a rule.
#[derive(Clone, Debug)]
pub struct Diagnostic {
    /// What is remarked.
    pub kind: DiagnosticKind,
    /// The name of the rule.
    pub rule: String,
    /// Byte offset in the grammar at which the rule starts.
    pub start: usize,
    /// Byte offset in the grammar at which the rule ends.
    pub end: usize,
    /// True when the grammar cannot be emitted.
    pub fatal: bool,
}

/// The model of a remark.
pub struct DiagnosticView {
    pub kind: DiagnosticKind,
    pub rule: Seq<char>,
    pub range: (usize, usize),
    pub fatal: bool,
}

impl View for Diagnostic {
    type V = DiagnosticView;

    open spec fn view(&self) -> DiagnosticView {
        DiagnosticView {
            kind: self.kind,
            rule: self.rule@,
            range: (self.start, self.end),
            fatal: self.fatal,
        }
    }
}

/// The models of a row of remarks.
pub open spec fn diagnostic_views(s: Seq<Diagnostic>) -> Seq<DiagnosticView> {
    Seq::new(s.len(), |i: int| s[i]@)
}

/// True for the kinds of remark after which the grammar cannot be emitted:
/// a call of an unknown function, and a rule that starts with itself.
pub open spec fn is_fatal(kind: DiagnosticKind) -> bool {
    kind == DiagnosticKind::UnknownFunction || kind == DiagnosticKind::LeftRecursion
}

impl Diagnostic {
    /// A remark of the kind `kind` on the rule `rule`, which stands in the
    /// grammar from `start` up to `end`.
    pub fn new(kind: DiagnosticKind, rule: &str, start: usize, end: usize) -> (d: Diagnostic)
        ensures
            d@ == (DiagnosticView { kind, rule: rule@, range: (start, end), fatal: is_fatal(kind) }),
    {
        let fatal = match kind {
            DiagnosticKind::UnknownFunction => true,
            DiagnosticKind::LeftRecursion => true,
            _ => false,
        };
        Diagnostic { kind, rule: rule.to_owned(), start, end, fatal }
    }
}

} // verus!
