//! Regular expressions of a grammar, compiled to tables.
//!
//! A regular expression is compiled in its anchored form, `^(` and `)`
//! around its source text, to a forward and a reverse automaton. Each is
//! kept as bytes in little and in big endian order, without the padding
//! that aligns them in memory. Two regular expressions are equal when
//! their four tables are.

use crate::strings::to_chars;
use core::hash::Hasher;
use regex_automata::dfa::dense::BuildError;
use regex_automata::dfa::regex::Regex;
use std::collections::hash_map::DefaultHasher;
use vstd::prelude::*;
use vstd::std_specs::hash::DefaultHasherAdditionalSpecFns;
use vstd::string::*;

verus! {

/// The error of `regex_automata` for a pattern that it cannot compile.
#[verifier::external_type_specification]
#[verifier::external_body]
pub struct ExBuildError(regex_automata::dfa::dense::BuildError);

/// The four tables of a compiled regular expression.
pub struct Tables {
    /// The forward table, little endian.
    pub forward_le: Seq<u8>,
    /// The reverse table, little endian.
    pub reverse_le: Seq<u8>,
    /// The forward table, big endian.
    pub forward_be: Seq<u8>,
    /// The reverse table, big endian.
    pub reverse_be: Seq<u8>,
}

/// The model of a regular expression.
pub struct RegexView {
    /// The source text.
    pub raw: Seq<char>,
    /// Where in the grammar it stands.
    pub span: (usize, usize),
    /// The tables, empty before the regular expression is built.
    pub tables: Tables,
}

/// The tables that `regex_automata` compiles `pattern` to, without padding,
/// or nothing where it rejects the pattern.
pub uninterp spec fn compiled_tables(pattern: Seq<char>) -> Option<Tables>;

/// What the serialisation of two automata gives: the bytes of each in both
/// byte orders, each with the number of padding bytes that it starts with.
pub struct RawTables {
    pub forward_le: Vec<u8>,
    pub forward_le_pad: usize,
    pub reverse_le: Vec<u8>,
    pub reverse_le_pad: usize,
    pub forward_be: Vec<u8>,
    pub forward_be_pad: usize,
    pub reverse_be: Vec<u8>,
    pub reverse_be_pad: usize,
}

impl RawTables {
    /// The tables without their padding.
    pub open spec fn stripped(&self) -> Tables {
        Tables {
            forward_le: without_padding(self.forward_le@, self.forward_le_pad),
            reverse_le: without_padding(self.reverse_le@, self.reverse_le_pad),
            forward_be: without_padding(self.forward_be@, self.forward_be_pad),
            reverse_be: without_padding(self.reverse_be@, self.reverse_be_pad),
        }
    }
}

/// `bytes` without its first `pad` bytes, or nothing where it has fewer.
pub open spec fn without_padding(bytes: Seq<u8>, pad: usize) -> Seq<u8> {
    if pad <= bytes.len() {
        bytes.skip(pad as int)
    } else {
        Seq::<u8>::empty()
    }
}

/// `Regex::new`, and `to_bytes_little_endian` and `to_bytes_big_endian` of
/// its forward and its reverse automaton. The pattern is compiled or
/// rejected; the bytes after the padding are the same for the same
/// pattern, while the padding depends on where the bytes lie in memory.
#[verifier::external_body]
fn compile_tables(pattern: &str) -> (r: Result<RawTables, BuildError>)
    ensures
        r is Ok <==> compiled_tables(pattern@) is Some,
        r matches Ok(t) ==> Some(t.stripped()) == compiled_tables(pattern@),
{
    let regex = Regex::new(pattern)?;
    let (forward_le, forward_le_pad) = regex.forward().to_bytes_little_endian();
    let (reverse_le, reverse_le_pad) = regex.reverse().to_bytes_little_endian();
    let (forward_be, forward_be_pad) = regex.forward().to_bytes_big_endian();
    let (reverse_be, reverse_be_pad) = regex.reverse().to_bytes_big_endian();
    Ok(RawTables { forward_le, forward_le_pad, reverse_le, reverse_le_pad, forward_be,
        forward_be_pad, reverse_be, reverse_be_pad })
}

/// Where the leftmost match of `pattern` in `haystack` ends, as
/// `regex_automata` finds it, or nothing where there is no match or the
/// pattern is rejected.
pub uninterp spec fn leftmost_match_end(pattern: Seq<char>, haystack: Seq<char>) -> Option<usize>;

/// `Regex::new` and `Regex::find`: the byte offset in `haystack` at which
/// the leftmost match of `pattern` ends.
#[verifier::external_body]
fn find_match_end(pattern: &str, haystack: &str) -> (r: Option<usize>)
    ensures
        r == leftmost_match_end(pattern@, haystack@),
{
    match Regex::new(pattern) {
        Ok(regex) => regex.find(haystack).map(|m| m.end()),
        Err(_) => None,
    }
}

/// The message of a `BuildError`, as its `Display` form gives it.
#[verifier::external_body]
fn build_error_text(e: &BuildError) -> (s: String) {
    format!("{}", e)
}

/// `raw` with a backslash before each backslash and each double quote.
pub open spec fn escaped(raw: Seq<char>) -> Seq<char>
    decreases raw.len(),
{
    if raw.len() == 0 {
        Seq::<char>::empty()
    } else if raw.last() == '\\' || raw.last() == '"' {
        escaped(raw.drop_last()).push('\\').push(raw.last())
    } else {
        escaped(raw.drop_last()).push(raw.last())
    }
}

/// The anchored form of `raw` between double quotes, with what stands in
/// the way of that escaped.
pub open spec fn quoted(raw: Seq<char>) -> Seq<char> {
    seq!['"', '^', '('] + escaped(raw) + seq![')', '"']
}

/// A regular expression that could not be compiled.
#[derive(Clone, Debug)]
pub struct RegexError {
    /// What the compiler said.
    pub message: String,
    /// Byte offset in the grammar at which the regular expression starts.
    pub span_start: usize,
    /// Byte offset in the grammar at which it ends.
    pub span_end: usize,
}

/// A regular expression of a grammar: its source text, and the tables that
/// it was compiled to.
#[derive(Debug)]
pub struct YggdrasilRegex {
    raw: String,
    span_start: usize,
    span_end: usize,
    forward_le: Vec<u8>,
    reverse_le: Vec<u8>,
    forward_be: Vec<u8>,
    reverse_be: Vec<u8>,
}

impl View for YggdrasilRegex {
    type V = RegexView;

    closed spec fn view(&self) -> RegexView {
        RegexView {
            raw: self.raw@,
            span: (self.span_start, self.span_end),
            tables: Tables {
                forward_le: self.forward_le@,
                reverse_le: self.reverse_le@,
                forward_be: self.forward_be@,
                reverse_be: self.reverse_be@,
            },
        }
    }
}

/// The pattern that is compiled for the source text `raw`.
pub open spec fn anchored(raw: Seq<char>) -> Seq<char> {
    "^("@ + raw + ")"@
}

/// Tables without bytes.
pub open spec fn no_tables() -> Tables {
    Tables {
        forward_le: Seq::<u8>::empty(),
        reverse_le: Seq::<u8>::empty(),
        forward_be: Seq::<u8>::empty(),
        reverse_be: Seq::<u8>::empty(),
    }
}

/// `bytes` without its first `pad` bytes.
pub fn strip_padding(bytes: &Vec<u8>, pad: usize) -> (out: Vec<u8>)
    ensures
        out@ == without_padding(bytes@, pad),
{
    let mut out: Vec<u8> = Vec::new();
    if pad > bytes.len() {
        return out;
    }
    let mut i: usize = pad;
    while i < bytes.len()
        invariant
            pad <= i <= bytes.len(),
            out@ == bytes@.subrange(pad as int, i as int),
        decreases bytes.len() - i,
    {
        out.push(bytes[i]);
        proof {
            assert(out@ =~= bytes@.subrange(pad as int, i + 1));
        }
        i = i + 1;
    }
    proof {
        assert(bytes@.subrange(pad as int, bytes.len() as int) =~= bytes@.skip(pad as int));
    }
    out
}

/// True when two rows of bytes are the same.
pub fn same_bytes(a: &Vec<u8>, b: &Vec<u8>) -> (eq: bool)
    ensures
        eq == (a@ == b@),
{
    if a.len() != b.len() {
        return false;
    }
    let mut i: usize = 0;
    while i < a.len()
        invariant
            i <= a.len(),
            a.len() == b.len(),
            forall|k: int| 0 <= k < i ==> a@[k] == b@[k],
        decreases a.len() - i,
    {
        if a[i] != b[i] {
            return false;
        }
        i = i + 1;
    }
    proof {
        assert(a@ =~= b@);
    }
    true
}

/// The sign for the hexadecimal digit `d`, in upper case.
pub open spec fn hex_digit(d: int) -> char {
    if d == 0 {
        '0'
    } else if d == 1 {
        '1'
    } else if d == 2 {
        '2'
    } else if d == 3 {
        '3'
    } else if d == 4 {
        '4'
    } else if d == 5 {
        '5'
    } else if d == 6 {
        '6'
    } else if d == 7 {
        '7'
    } else if d == 8 {
        '8'
    } else if d == 9 {
        '9'
    } else if d == 10 {
        'A'
    } else if d == 11 {
        'B'
    } else if d == 12 {
        'C'
    } else if d == 13 {
        'D'
    } else if d == 14 {
        'E'
    } else {
        'F'
    }
}

/// `n` in hexadecimal digits, in upper case, without leading zeros.
pub open spec fn hex_text(n: nat) -> Seq<char>
    decreases n,
{
    if n < 16 {
        seq![hex_digit(n as int)]
    } else {
        hex_text(n / 16).push(hex_digit((n % 16) as int))
    }
}

/// Appends `n` in hexadecimal digits to `s`.
fn push_hex(s: &mut String, n: u64)
    ensures
        final(s)@ == old(s)@ + hex_text(n as nat),
    decreases n,
{
    if n >= 16 {
        push_hex(s, n / 16);
    }
    let d = n % 16;
    let c = if d == 0 {
        '0'
    } else if d == 1 {
        '1'
    } else if d == 2 {
        '2'
    } else if d == 3 {
        '3'
    } else if d == 4 {
        '4'
    } else if d == 5 {
        '5'
    } else if d == 6 {
        '6'
    } else if d == 7 {
        '7'
    } else if d == 8 {
        '8'
    } else if d == 9 {
        '9'
    } else if d == 10 {
        'A'
    } else if d == 11 {
        'B'
    } else if d == 12 {
        'C'
    } else if d == 13 {
        'D'
    } else if d == 14 {
        'E'
    } else {
        'F'
    };
    s.push(c);
    proof {
        if n >= 16 {
            assert(s@ =~= old(s)@ + hex_text(n as nat));
        } else {
            assert(s@ =~= old(s)@ + seq![c]);
        }
    }
}

/// `n` in hexadecimal digits, in upper case, without leading zeros.
pub fn upper_hex(n: u64) -> (s: String)
    ensures
        s@ == hex_text(n as nat),
{
    let mut s = String::new();
    push_hex(&mut s, n);
    proof {
        assert(Seq::<char>::empty() + hex_text(n as nat) =~= hex_text(n as nat));
    }
    s
}

/// The number that names the tables `t`: what the default hasher of the
/// standard library makes of the four tables, written one after the other.
pub open spec fn tables_hash(t: Tables) -> u64 {
    DefaultHasher::spec_finish(seq![t.forward_le, t.reverse_le, t.forward_be, t.reverse_be])
}

impl YggdrasilRegex {
    /// The regular expression with the source text `text`, which stands in
    /// the grammar from `start` up to `end`. It is not compiled yet.
    pub fn new(text: &str, start: usize, end: usize) -> (r: YggdrasilRegex)
        ensures
            r@ == (RegexView { raw: text@, span: (start, end), tables: no_tables() }),
    {
        YggdrasilRegex {
            raw: text.to_owned(),
            span_start: start,
            span_end: end,
            forward_le: Vec::new(),
            reverse_le: Vec::new(),
            forward_be: Vec::new(),
            reverse_be: Vec::new(),
        }
    }

    /// The source text.
    pub fn raw(&self) -> (s: &str)
        ensures
            s@ == self@.raw,
    {
        self.raw.as_str()
    }

    /// Where in the grammar the regular expression stands.
    pub fn span(&self) -> (s: (usize, usize))
        ensures
            s == self@.span,
    {
        (self.span_start, self.span_end)
    }

    /// The forward table in little endian order.
    pub fn forward_le(&self) -> (t: &Vec<u8>)
        ensures
            t@ == self@.tables.forward_le,
    {
        &self.forward_le
    }

    /// The reverse table in little endian order.
    pub fn reverse_le(&self) -> (t: &Vec<u8>)
        ensures
            t@ == self@.tables.reverse_le,
    {
        &self.reverse_le
    }

    /// The forward table in big endian order.
    pub fn forward_be(&self) -> (t: &Vec<u8>)
        ensures
            t@ == self@.tables.forward_be,
    {
        &self.forward_be
    }

    /// The reverse table in big endian order.
    pub fn reverse_be(&self) -> (t: &Vec<u8>)
        ensures
            t@ == self@.tables.reverse_be,
    {
        &self.reverse_be
    }

    /// The pattern that is compiled: the source text between `^(` and `)`.
    pub fn pattern(&self) -> (p: String)
        ensures
            p@ == anchored(self@.raw),
    {
        let mut p = "^(".to_owned();
        p.append(self.raw.as_str());
        p.append(")");
        p
    }

    /// The regular expression as it is written in emitted code: the
    /// pattern between double quotes, with a backslash before each
    /// backslash and each double quote of the source text.
    pub fn to_text(&self) -> (out: String)
        ensures
            out@ == quoted(self@.raw),
    {
        let chars = to_chars(self.raw.as_str());
        let mut out = String::new();
        out.push('"');
        out.push('^');
        out.push('(');
        let mut i: usize = 0;
        while i < chars.len()
            invariant
                i <= chars.len(),
                chars@ == self@.raw,
                out@ == seq!['"', '^', '('] + escaped(chars@.take(i as int)),
            decreases chars.len() - i,
        {
            let c = chars[i];
            if c == '\\' || c == '"' {
                out.push('\\');
            }
            out.push(c);
            proof {
                let next = chars@.take(i + 1);
                assert(next.drop_last() =~= chars@.take(i as int));
                assert(next.last() == c);
                assert(out@ =~= seq!['"', '^', '('] + escaped(next));
            }
            i = i + 1;
        }
        out.push(')');
        out.push('"');
        proof {
            assert(chars@.take(chars.len() as int) =~= chars@);
            assert(out@ =~= quoted(self@.raw));
        }
        out
    }

    /// Where the match of the regular expression at the start of
    /// `haystack` ends, in bytes, if it matches there.
    pub fn match_end(&self, haystack: &str) -> (r: Option<usize>)
        ensures
            r == leftmost_match_end(anchored(self@.raw), haystack@),
    {
        let pattern = self.pattern();
        find_match_end(pattern.as_str(), haystack)
    }

    /// Takes the tables of a serialisation, each without its padding.
    pub fn install(&mut self, tables: &RawTables)
        ensures
            final(self)@ == (RegexView { tables: tables.stripped(), ..old(self)@ }),
    {
        self.forward_le = strip_padding(&tables.forward_le, tables.forward_le_pad);
        self.reverse_le = strip_padding(&tables.reverse_le, tables.reverse_le_pad);
        self.forward_be = strip_padding(&tables.forward_be, tables.forward_be_pad);
        self.reverse_be = strip_padding(&tables.reverse_be, tables.reverse_be_pad);
    }

    /// Compiles the regular expression and keeps the tables. Where the
    /// pattern is rejected, nothing changes.
    pub fn build(&mut self) -> (r: Result<(), RegexError>)
        ensures
            r is Ok <==> compiled_tables(anchored(old(self)@.raw)) is Some,
            r is Ok ==> final(self)@ == (RegexView {
                tables: compiled_tables(anchored(old(self)@.raw))->0,
                ..old(self)@
            }),
            r matches Err(e) ==> final(self)@ == old(self)@ && (e.span_start, e.span_end) == old(
                self,
            )@.span,
    {
        let pattern = self.pattern();
        match compile_tables(pattern.as_str()) {
            Ok(tables) => {
                self.install(&tables);
                Ok(())
            },
            Err(e) => Err(
                RegexError {
                    message: build_error_text(&e),
                    span_start: self.span_start,
                    span_end: self.span_end,
                },
            ),
        }
    }

    /// A copy of the regular expression, compiled.
    pub fn built(&self) -> (r: Result<YggdrasilRegex, RegexError>)
        ensures
            r is Ok <==> compiled_tables(anchored(self@.raw)) is Some,
            r matches Ok(out) ==> out@ == (RegexView {
                tables: compiled_tables(anchored(self@.raw))->0,
                ..self@
            }),
            r matches Err(e) ==> (e.span_start, e.span_end) == self@.span,
    {
        let mut out = self.duplicate();
        match out.build() {
            Ok(()) => Ok(out),
            Err(e) => Err(e),
        }
    }

    /// The regular expression with the source text `s`, compiled.
    pub fn parse(s: &str) -> (r: Result<YggdrasilRegex, RegexError>)
        ensures
            r is Ok <==> compiled_tables(anchored(s@)) is Some,
            r matches Ok(out) ==> out@ == (RegexView {
                raw: s@,
                span: (0usize, byte_count(s)),
                tables: compiled_tables(anchored(s@))->0,
            }),
    {
        let mut out = YggdrasilRegex::new(s, 0, s.as_bytes().len());
        match out.build() {
            Ok(()) => Ok(out),
            Err(e) => Err(e),
        }
    }

    /// A copy of the regular expression.
    pub fn duplicate(&self) -> (r: YggdrasilRegex)
        ensures
            r@ == self@,
    {
        YggdrasilRegex {
            raw: self.raw.clone(),
            span_start: self.span_start,
            span_end: self.span_end,
            forward_le: self.forward_le.clone(),
            reverse_le: self.reverse_le.clone(),
            forward_be: self.forward_be.clone(),
            reverse_be: self.reverse_be.clone(),
        }
    }

    /// True when the two regular expressions have the same model: source
    /// text, place and tables.
    pub fn same_model(&self, other: &YggdrasilRegex) -> (eq: bool)
        ensures
            eq == (self@ == other@),
    {
        crate::strings::same_text(self.raw.as_str(), other.raw.as_str()) && self.span_start
            == other.span_start && self.span_end == other.span_end && self.same_tables(other)
    }

    /// True when the two regular expressions have the same tables.
    pub fn same_tables(&self, other: &YggdrasilRegex) -> (eq: bool)
        ensures
            eq == (self@.tables == other@.tables),
    {
        same_bytes(&self.forward_le, &other.forward_le) && same_bytes(
            &self.reverse_le,
            &other.reverse_le,
        ) && same_bytes(&self.forward_be, &other.forward_be) && same_bytes(
            &self.reverse_be,
            &other.reverse_be,
        )
    }

    /// The name of the constant that holds the tables in emitted text:
    /// `REGEX_` and the hash of the tables in hexadecimal digits.
    pub fn constant_name(&self) -> (name: String)
        ensures
            name@ == "REGEX_"@ + hex_text(tables_hash(self@.tables) as nat),
    {
        let mut hasher = DefaultHasher::new();
        hasher.write(self.forward_le.as_slice());
        hasher.write(self.reverse_le.as_slice());
        hasher.write(self.forward_be.as_slice());
        hasher.write(self.reverse_be.as_slice());
        let id = hasher.finish();
        proof {
            assert(hasher@ =~= seq![
                self.forward_le@,
                self.reverse_le@,
                self.forward_be@,
                self.reverse_be@,
            ]);
        }
        let mut name = "REGEX_".to_owned();
        push_hex(&mut name, id);
        name
    }
}

/// Number of bytes of `s`.
pub open spec fn byte_count(s: &str) -> usize {
    s.spec_bytes().len() as usize
}

impl PartialEq for YggdrasilRegex {
    /// Two regular expressions are equal when their tables are, whatever
    /// their source texts are.
    fn eq(&self, other: &YggdrasilRegex) -> (eq: bool) {
        self.same_tables(other)
    }
}

impl vstd::std_specs::cmp::PartialEqSpecImpl for YggdrasilRegex {
    open spec fn obeys_eq_spec() -> bool {
        true
    }

    open spec fn eq_spec(&self, other: &YggdrasilRegex) -> bool {
        self@.tables == other@.tables
    }
}

} // verus!
