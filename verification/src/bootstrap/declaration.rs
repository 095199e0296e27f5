//! The declarations of a grammar text, line by line, and those among them
//! that declare again what was declared before.
//!
//! A line declares something by its first two words. `grammar!` and
//! `fragment!` declare what the text is, by the name that follows; `ignore!`
//! and `import!` say what is ignored and imported; and a word followed by
//! one of the signs `=`, `_=`, `@=` and `^=` declares the rule of that name.
//! A text is a grammar or a fragment only once, and has one rule of a name.

use crate::span::{split_lines, TextSpan};
use crate::strings::{from_chars, same_text, to_chars};
use crate::text::byte_len;
use vstd::prelude::*;
use vstd::string::*;

verus! {

/// What a line declares.
#[derive(Clone, Copy, Debug, PartialEq, Eq, Structural)]
pub enum DeclarationKind {
    /// The text is the grammar of the name.
    Grammar,
    /// The text is a fragment of the grammar of the name.
    Fragment,
    /// Rules are ignored.
    Ignore,
    /// Rules are imported.
    Import,
    /// The rule of the name.
    Rule,
}

/// A declaration: what is declared, under which name, on which line.
#[derive(Clone, Debug)]
pub struct Declaration {
    /// What is declared.
    pub kind: DeclarationKind,
    /// The name.
    pub name: String,
    /// The line, counted from 1.
    pub line: usize,
}

/// The model of a declaration.
pub struct DeclarationView {
    pub kind: DeclarationKind,
    pub name: Seq<char>,
    pub line: int,
}

impl View for Declaration {
    type V = DeclarationView;

    open spec fn view(&self) -> DeclarationView {
        DeclarationView { kind: self.kind, name: self.name@, line: self.line as int }
    }
}

/// The models of a row of declarations.
pub open spec fn declaration_views(s: Seq<Declaration>) -> Seq<DeclarationView> {
    Seq::new(s.len(), |i: int| s[i]@)
}

/// A declaration of what was declared before.
#[derive(Clone, Debug)]
pub struct Duplicate {
    /// What is declared again.
    pub kind: DeclarationKind,
    /// The name that is declared again.
    pub name: String,
    /// The line of the first declaration, counted from 1.
    pub first_line: usize,
    /// The line of this declaration, counted from 1.
    pub line: usize,
}

/// The model of a declaration of what was declared before.
pub struct DuplicateView {
    pub kind: DeclarationKind,
    pub name: Seq<char>,
    pub first_line: int,
    pub line: int,
}

impl View for Duplicate {
    type V = DuplicateView;

    open spec fn view(&self) -> DuplicateView {
        DuplicateView {
            kind: self.kind,
            name: self.name@,
            first_line: self.first_line as int,
            line: self.line as int,
        }
    }
}

/// The models of a row of such declarations.
pub open spec fn duplicate_views(s: Seq<Duplicate>) -> Seq<DuplicateView> {
    Seq::new(s.len(), |i: int| s[i]@)
}

/// True for the code points that stand between words.
pub open spec fn is_blank(c: char) -> bool {
    c == ' ' || c == '\t' || c == '\r'
}

/// Index of the first code point at or after `i` that is not blank, or the
/// length of `s`.
pub open spec fn blank_end(s: Seq<char>, i: int) -> int
    decreases s.len() - i,
{
    if i < 0 || i >= s.len() {
        s.len() as int
    } else if !is_blank(s[i]) {
        i
    } else {
        blank_end(s, i + 1)
    }
}

/// Index of the first code point at or after `i` that is blank, or the
/// length of `s`.
pub open spec fn word_end(s: Seq<char>, i: int) -> int
    decreases s.len() - i,
{
    if i < 0 || i >= s.len() {
        s.len() as int
    } else if is_blank(s[i]) {
        i
    } else {
        word_end(s, i + 1)
    }
}

/// The first word of `s` at or after `i`: empty where none is left.
pub open spec fn word_at(s: Seq<char>, i: int) -> Seq<char> {
    s.subrange(blank_end(s, i), word_end(s, blank_end(s, i)))
}

/// Index behind the first word of `s` at or after `i`.
pub open spec fn after_word(s: Seq<char>, i: int) -> int {
    word_end(s, blank_end(s, i))
}

/// True for the signs that define a rule.
pub open spec fn is_assign(w: Seq<char>) -> bool {
    w == "="@ || w == "_="@ || w == "@="@ || w == "^="@
}

/// What the line `line` declares, and under which name.
pub open spec fn declared(line: Seq<char>) -> Option<(DeclarationKind, Seq<char>)> {
    let first = word_at(line, 0);
    let second = word_at(line, after_word(line, 0));
    if first == "grammar!"@ {
        Some((DeclarationKind::Grammar, second))
    } else if first == "fragment!"@ {
        Some((DeclarationKind::Fragment, second))
    } else if first == "ignore!"@ {
        Some((DeclarationKind::Ignore, second))
    } else if first == "import!"@ {
        Some((DeclarationKind::Import, second))
    } else if first.len() > 0 && is_assign(second) {
        Some((DeclarationKind::Rule, first))
    } else {
        None
    }
}

/// The declarations of the first `k` of `lines`.
pub open spec fn declarations(lines: Seq<Seq<char>>, k: nat) -> Seq<DeclarationView>
    decreases k,
{
    if k == 0 || k > lines.len() {
        Seq::<DeclarationView>::empty()
    } else {
        match declared(lines[k - 1]) {
            Some((kind, name)) => declarations(lines, (k - 1) as nat).push(
                DeclarationView { kind, name, line: k as int },
            ),
            None => declarations(lines, (k - 1) as nat),
        }
    }
}

/// True when the declaration says what the text is.
pub open spec fn is_head(kind: DeclarationKind) -> bool {
    kind == DeclarationKind::Grammar || kind == DeclarationKind::Fragment
}

/// True when only one of the two declarations can stand: both say what the
/// text is, or both declare the rule of one name.
pub open spec fn same_slot(a: DeclarationView, b: DeclarationView) -> bool {
    (is_head(a.kind) && is_head(b.kind)) || (a.kind == DeclarationKind::Rule && b.kind
        == DeclarationKind::Rule && a.name == b.name)
}

/// Index of the first of the first `k` declarations that takes the slot of
/// `d`, or `k`.
pub open spec fn first_same(decls: Seq<DeclarationView>, d: DeclarationView, k: nat) -> nat
    decreases k,
{
    if k == 0 || k > decls.len() {
        k
    } else {
        let before = first_same(decls, d, (k - 1) as nat);
        if before < k - 1 {
            before
        } else if same_slot(decls[k - 1], d) {
            (k - 1) as nat
        } else {
            k
        }
    }
}

/// Those of the first `k` declarations that take a slot that an earlier
/// declaration has taken.
pub open spec fn duplicates(decls: Seq<DeclarationView>, k: nat) -> Seq<DuplicateView>
    decreases k,
{
    if k == 0 || k > decls.len() {
        Seq::<DuplicateView>::empty()
    } else {
        let d = decls[k - 1];
        let first = first_same(decls, d, (k - 1) as nat);
        if first < k - 1 {
            duplicates(decls, (k - 1) as nat).push(
                DuplicateView {
                    kind: d.kind,
                    name: d.name,
                    first_line: decls[first as int].line,
                    line: d.line,
                },
            )
        } else {
            duplicates(decls, (k - 1) as nat)
        }
    }
}

/// True for the code points that stand between words.
fn blank(c: char) -> (b: bool)
    ensures
        b == is_blank(c),
{
    c == ' ' || c == '\t' || c == '\r'
}

/// Index of the first code point at or after `i` that is not blank.
fn skip_blanks(s: &Vec<char>, i: usize) -> (j: usize)
    requires
        i <= s.len(),
    ensures
        j == blank_end(s@, i as int),
        i <= j <= s.len(),
{
    let mut j = i;
    while j < s.len() && blank(s[j])
        invariant
            i <= j <= s.len(),
            blank_end(s@, j as int) == blank_end(s@, i as int),
        decreases s.len() - j,
    {
        j = j + 1;
    }
    j
}

/// Index of the first code point at or after `i` that is blank.
fn skip_word(s: &Vec<char>, i: usize) -> (j: usize)
    requires
        i <= s.len(),
    ensures
        j == word_end(s@, i as int),
        i <= j <= s.len(),
{
    let mut j = i;
    while j < s.len() && !blank(s[j])
        invariant
            i <= j <= s.len(),
            word_end(s@, j as int) == word_end(s@, i as int),
        decreases s.len() - j,
    {
        j = j + 1;
    }
    j
}

/// The first word of `s` at or after `i`, and the index behind it.
fn next_word(s: &Vec<char>, i: usize) -> (r: (String, usize))
    requires
        i <= s.len(),
    ensures
        r.0@ == word_at(s@, i as int),
        r.1 == after_word(s@, i as int),
        r.1 <= s.len(),
{
    let a = skip_blanks(s, i);
    let b = skip_word(s, a);
    let mut word: Vec<char> = Vec::new();
    let mut k = a;
    while k < b
        invariant
            a <= k <= b <= s.len(),
            word@ == s@.subrange(a as int, k as int),
        decreases b - k,
    {
        word.push(s[k]);
        proof {
            assert(word@ =~= s@.subrange(a as int, k + 1));
        }
        k = k + 1;
    }
    (from_chars(&word), b)
}

/// What the line `line` declares, and under which name.
pub fn read_line(line: &str) -> (r: Option<(DeclarationKind, String)>)
    ensures
        match r {
            Some(found) => declared(line@) == Some((found.0, found.1@)),
            None => declared(line@) is None,
        },
{
    let chars = to_chars(line);
    let (first, at) = next_word(&chars, 0);
    let (second, _) = next_word(&chars, at);
    if same_text(first.as_str(), "grammar!") {
        Some((DeclarationKind::Grammar, second))
    } else if same_text(first.as_str(), "fragment!") {
        Some((DeclarationKind::Fragment, second))
    } else if same_text(first.as_str(), "ignore!") {
        Some((DeclarationKind::Ignore, second))
    } else if same_text(first.as_str(), "import!") {
        Some((DeclarationKind::Import, second))
    } else if !first.as_str().is_empty() && (same_text(second.as_str(), "=") || same_text(
        second.as_str(),
        "_=",
    ) || same_text(second.as_str(), "@=") || same_text(second.as_str(), "^=")) {
        Some((DeclarationKind::Rule, first))
    } else {
        None
    }
}

/// The declarations of the text, in the order of its lines.
pub fn scan_declarations(text: &str) -> (out: Vec<Declaration>)
    requires
        byte_len(text@) < usize::MAX,
    ensures
        declaration_views(out@) == declarations(split_lines(text@), split_lines(text@).len()),
{
    let span = match TextSpan::new(text, 0, text.as_bytes().len()) {
        Some(s) => s,
        None => {
            proof {
                crate::text::lemma_ends_are_boundaries(text@);
                assert(false);
            }
            return Vec::new();
        },
    };
    proof {
        crate::text::lemma_ends_are_boundaries(text@);
        assert(span.covered() =~= text@);
    }
    let lines = span.lines();
    let ghost all = split_lines(text@);
    let mut out: Vec<Declaration> = Vec::new();
    let mut i: usize = 0;
    proof {
        assert(declaration_views(out@) =~= declarations(all, 0));
    }
    while i < lines.len()
        invariant
            i <= lines.len(),
            lines.len() == all.len(),
            forall|k: int| 0 <= k < lines.len() ==> (#[trigger] lines[k])@ == all[k],
            declaration_views(out@) == declarations(all, i as nat),
        decreases lines.len() - i,
    {
        match read_line(lines[i]) {
            Some((kind, name)) => {
                let ghost before = declaration_views(out@);
                let d = Declaration { kind, name, line: i + 1 };
                out.push(d);
                proof {
                    assert(declaration_views(out@) =~= before.push(d@));
                }
            },
            None => {},
        }
        i = i + 1;
    }
    out
}

/// True when the declaration says what the text is.
fn head(kind: DeclarationKind) -> (b: bool)
    ensures
        b == is_head(kind),
{
    match kind {
        DeclarationKind::Grammar => true,
        DeclarationKind::Fragment => true,
        _ => false,
    }
}

/// True when only one of the two declarations can stand.
fn takes_slot(a: &Declaration, b: &Declaration) -> (r: bool)
    ensures
        r == same_slot(a@, b@),
{
    let rules = match (a.kind, b.kind) {
        (DeclarationKind::Rule, DeclarationKind::Rule) => true,
        _ => false,
    };
    (head(a.kind) && head(b.kind)) || (rules && same_text(a.name.as_str(), b.name.as_str()))
}

/// Those of the declarations that take a slot that an earlier declaration
/// has taken, each with the line of the first declaration that took it.
pub fn find_duplicates(decls: &Vec<Declaration>) -> (out: Vec<Duplicate>)
    ensures
        duplicate_views(out@) == duplicates(declaration_views(decls@), decls@.len()),
{
    let mut out: Vec<Duplicate> = Vec::new();
    let mut i: usize = 0;
    let ghost views = declaration_views(decls@);
    proof {
        assert(duplicate_views(out@) =~= duplicates(views, 0));
    }
    while i < decls.len()
        invariant
            i <= decls.len(),
            views == declaration_views(decls@),
            duplicate_views(out@) == duplicates(views, i as nat),
        decreases decls.len() - i,
    {
        let d = &decls[i];
        let mut j: usize = 0;
        let mut first: usize = i;
        while j < i
            invariant
                j <= i < decls.len(),
                views == declaration_views(decls@),
                *d == decls@[i as int],
                first == if first_same(views, d@, j as nat) < j {
                    first_same(views, d@, j as nat)
                } else {
                    i as nat
                },
            decreases i - j,
        {
            if first == i && takes_slot(&decls[j], d) {
                first = j;
            }
            j = j + 1;
        }
        if first < i {
            let ghost before = duplicate_views(out@);
            let dup = Duplicate {
                kind: d.kind,
                name: d.name.clone(),
                first_line: decls[first].line,
                line: d.line,
            };
            out.push(dup);
            proof {
                assert(duplicate_views(out@) =~= before.push(dup@));
            }
        }
        i = i + 1;
    }
    out
}

/// The declarations of the text that declare again what was declared
/// before.
pub fn diagnose(text: &str) -> (out: Vec<Duplicate>)
    requires
        byte_len(text@) < usize::MAX,
    ensures
        duplicate_views(out@) == duplicates(
            declarations(split_lines(text@), split_lines(text@).len()),
            declarations(split_lines(text@), split_lines(text@).len()).len(),
        ),
{
    let decls = scan_declarations(text);
    find_duplicates(&decls)
}

} // verus!
