//! From the parse tree of a grammar to the grammar that an emitter takes.

use crate::bootstrap::tree::RootNode;
use crate::builder::fault::{error_views, GrammarError, GrammarErrorView};
use crate::builder::grammar::{build_grammar, built_errors, built_rules};
use crate::ir::rule::RuleView;
use crate::optimize::diagnostic::{diagnostic_views, Diagnostic, DiagnosticView};
use crate::optimize::fields::{field_views, fields_of};
use crate::optimize::pipeline::{has_fatal, optimize, optimized_rules, optimizer_notes, Optimized};
use vstd::prelude::*;

verus! {

/// Why a grammar is not handed to an emitter.
pub struct Rejected {
    /// The errors that were found while the grammar was built.
    pub errors: Vec<GrammarError>,
    /// What the optimiser had to remark.
    pub diagnostics: Vec<Diagnostic>,
}

/// The rules that `root` declares.
pub open spec fn declared_rules(root: RootNode) -> Seq<RuleView> {
    built_rules(root.statement@, root.statement@.len())
}

/// The errors in the statements of `root`.
pub open spec fn declared_errors(root: RootNode) -> Seq<GrammarErrorView> {
    built_errors(root.statement@, root.statement@.len())
}

/// What the optimiser remarks on the rules that `root` declares. A parse
/// tree names no rules to ignore or to keep.
pub open spec fn remarks(root: RootNode) -> Seq<DiagnosticView> {
    optimizer_notes(declared_rules(root), Seq::empty(), Seq::empty())
}

/// True when a grammar can be emitted: it was built without an error, and
/// no remark of the optimiser is fatal.
pub open spec fn is_accepted(root: RootNode) -> bool {
    &&& declared_errors(root).len() == 0
    &&& forall|i: int| 0 <= i < remarks(root).len() ==> !(#[trigger] remarks(root)[i]).fatal
}

/// Builds the grammar that `root` declares and runs the optimiser on it.
/// The optimised grammar comes back where it can be emitted, and else all
/// that was found wrong with it.
pub fn compile(root: &RootNode) -> (r: Result<Optimized, Rejected>)
    ensures
        r is Ok <==> is_accepted(*root),
        match r {
            Ok(out) => {
                &&& out.grammar.wf()
                &&& out.grammar.rule_views() == optimized_rules(
                    declared_rules(*root),
                    Seq::empty(),
                    Seq::empty(),
                )
                &&& field_views(out.fields@) == fields_of(
                    out.grammar.rule_views(),
                    out.grammar.rule_views().len(),
                )
                &&& diagnostic_views(out.diagnostics@) == remarks(*root)
            },
            Err(e) => {
                &&& error_views(e.errors@) == declared_errors(*root)
                &&& diagnostic_views(e.diagnostics@) == remarks(*root)
            },
        },
{
    let built = build_grammar(root);
    let errors = built.errors;
    proof {
        assert(crate::optimize::pipeline::ignored_names(built.grammar) =~= Seq::empty());
        assert(crate::optimize::pipeline::kept_names(built.grammar) =~= Seq::empty());
        assert(error_views(errors@).len() == errors@.len());
    }
    let out = optimize(built.grammar);
    let fatal = has_fatal(&out.diagnostics);
    proof {
        let notes = diagnostic_views(out.diagnostics@);
        assert(notes.len() == out.diagnostics@.len());
        assert(forall|i: int| 0 <= i < notes.len() ==> (#[trigger] notes[i]).fatal == out.diagnostics@[i].fatal);
        if fatal {
            let i = choose|i: int| 0 <= i < out.diagnostics@.len() && (#[trigger] out.diagnostics@[i]).fatal;
            assert(notes[i].fatal);
        }
    }
    if errors.len() > 0 || fatal {
        Err(Rejected { errors, diagnostics: out.diagnostics })
    } else {
        Ok(out)
    }
}

} // verus!
