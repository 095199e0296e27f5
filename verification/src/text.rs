//! Byte offsets into UTF-8 text, and the code points they stand between.
//!
//! A text is modelled by its sequence of code points. A byte offset is a
//! boundary of the text when it falls between two code points, and then it is
//! determined by the number of code points before it.

use vstd::prelude::*;
use vstd::string::*;
use vstd::utf8::*;

verus! {

/// Number of bytes that `chars` take when encoded as UTF-8.
pub open spec fn byte_len(chars: Seq<char>) -> nat {
    encode_utf8(chars).len()
}

/// True when `offset` is a byte offset into `text` that falls between two
/// code points, or at the start or the end.
pub open spec fn on_boundary(text: Seq<char>, offset: int) -> bool {
    0 <= offset <= byte_len(text) && is_char_boundary(encode_utf8(text), offset)
}

/// Number of code points of `text` that lie before the byte offset `offset`.
pub open spec fn char_index(text: Seq<char>, offset: int) -> int {
    decode_utf8(encode_utf8(text).subrange(0, offset)).len() as int
}

/// The code points of `text` from the byte offset `offset` on.
pub open spec fn chars_from(text: Seq<char>, offset: int) -> Seq<char> {
    text.skip(char_index(text, offset))
}

/// The code points of `text` between two byte offsets.
pub open spec fn chars_between(text: Seq<char>, from: int, to: int) -> Seq<char> {
    text.subrange(char_index(text, from), char_index(text, to))
}

/// Encoding distributes over concatenation.
pub proof fn lemma_encode_concat(a: Seq<char>, b: Seq<char>)
    ensures
        encode_utf8(a + b) == encode_utf8(a) + encode_utf8(b),
    decreases a.len(),
{
    if a.len() == 0 {
        assert(a + b =~= b);
        assert(encode_utf8(a) + encode_utf8(b) =~= encode_utf8(b));
    } else {
        lemma_encode_concat(a.drop_first(), b);
        assert((a + b).drop_first() =~= a.drop_first() + b);
        assert((a + b)[0] == a[0]);
        assert(encode_utf8(a + b) =~= encode_utf8(a) + encode_utf8(b));
    }
}

/// A code point takes between one and four bytes.
pub proof fn lemma_byte_len_one(c: char)
    ensures
        1 <= byte_len(seq![c]) <= 4,
        byte_len(seq![c]) == encode_scalar(c as u32).len(),
{
    let s = seq![c];
    assert(s.drop_first() =~= Seq::<char>::empty());
    assert(encode_utf8(s.drop_first()) =~= Seq::<u8>::empty());
    assert(encode_utf8(s) =~= encode_scalar(c as u32));
}

/// The byte length of a concatenation is the sum of the byte lengths.
pub proof fn lemma_byte_len_concat(a: Seq<char>, b: Seq<char>)
    ensures
        byte_len(a + b) == byte_len(a) + byte_len(b),
{
    lemma_encode_concat(a, b);
}

/// A text takes at least as many bytes as it has code points.
pub proof fn lemma_byte_len_lower(a: Seq<char>)
    ensures
        a.len() <= byte_len(a),
    decreases a.len(),
{
    if a.len() > 0 {
        lemma_byte_len_lower(a.drop_first());
        lemma_byte_len_one(a[0]);
        assert(a =~= seq![a[0]] + a.drop_first());
        lemma_byte_len_concat(seq![a[0]], a.drop_first());
    }
}

/// Longer prefixes take more bytes.
pub proof fn lemma_prefix_len_monotone(text: Seq<char>, i: int, j: int)
    requires
        0 <= i <= j <= text.len(),
    ensures
        byte_len(text.take(i)) + (j - i) <= byte_len(text.take(j)) <= byte_len(text),
        i < j ==> byte_len(text.take(i)) < byte_len(text.take(j)),
{
    let mid = text.subrange(i, j);
    assert(text.take(j) =~= text.take(i) + mid);
    lemma_byte_len_concat(text.take(i), mid);
    lemma_byte_len_lower(mid);
    assert(text =~= text.take(j) + text.skip(j));
    lemma_byte_len_concat(text.take(j), text.skip(j));
}

/// The bytes of the first `k` code points end on a boundary.
proof fn lemma_prefix_is_boundary(text: Seq<char>, k: int)
    requires
        0 <= k <= text.len(),
    ensures
        is_char_boundary(encode_utf8(text), byte_len(text.take(k)) as int),
    decreases k,
{
    let bytes = encode_utf8(text);
    encode_utf8_valid_utf8(text);
    if k == 0 {
        assert(text.take(0) =~= Seq::<char>::empty());
    } else {
        let rest = text.drop_first();
        let head = seq![text[0]];
        lemma_byte_len_one(text[0]);
        assert(text.take(k) =~= head + rest.take(k - 1));
        lemma_byte_len_concat(head, rest.take(k - 1));
        lemma_prefix_len_monotone(text, k, text.len() as int);
        encode_utf8_first_scalar(text);
        assert(pop_first_scalar(bytes) =~= encode_utf8(rest));
        lemma_prefix_is_boundary(rest, k - 1);
    }
}

/// The byte offset after the first `k` code points is a boundary, and `k`
/// code points lie before it.
pub proof fn lemma_index_to_offset(text: Seq<char>, k: int)
    requires
        0 <= k <= text.len(),
    ensures
        on_boundary(text, byte_len(text.take(k)) as int),
        char_index(text, byte_len(text.take(k)) as int) == k,
{
    lemma_prefix_is_boundary(text, k);
    lemma_prefix_len_monotone(text, k, text.len() as int);
    assert(text =~= text.take(k) + text.skip(k));
    lemma_encode_concat(text.take(k), text.skip(k));
    let off = byte_len(text.take(k)) as int;
    assert(encode_utf8(text).subrange(0, off) =~= encode_utf8(text.take(k)));
    encode_utf8_decode_utf8(text.take(k));
}

/// A boundary is the byte offset after the code points that lie before it.
pub proof fn lemma_offset_to_index(text: Seq<char>, offset: int)
    requires
        on_boundary(text, offset),
    ensures
        0 <= char_index(text, offset) <= text.len(),
        byte_len(text.take(char_index(text, offset))) == offset,
        decode_utf8(encode_utf8(text).subrange(0, offset)) == text.take(char_index(text, offset)),
{
    let bytes = encode_utf8(text);
    encode_utf8_valid_utf8(text);
    valid_utf8_split(bytes, offset);
    decode_utf8_split(bytes, offset);
    encode_utf8_decode_utf8(text);
    let b1 = bytes.subrange(0, offset);
    let b2 = bytes.subrange(offset, bytes.len() as int);
    let c1 = decode_utf8(b1);
    let c2 = decode_utf8(b2);
    assert(text =~= c1 + c2);
    assert(text.take(c1.len() as int) =~= c1);
    decode_utf8_encode_utf8(b1);
}

/// Two boundaries are ordered as the numbers of code points before them.
pub proof fn lemma_boundary_order(text: Seq<char>, a: int, b: int)
    requires
        on_boundary(text, a),
        on_boundary(text, b),
    ensures
        a <= b <==> char_index(text, a) <= char_index(text, b),
        a == b <==> char_index(text, a) == char_index(text, b),
{
    lemma_offset_to_index(text, a);
    lemma_offset_to_index(text, b);
    let i = char_index(text, a);
    let j = char_index(text, b);
    if i <= j {
        lemma_prefix_len_monotone(text, i, j);
    } else {
        lemma_prefix_len_monotone(text, j, i);
    }
}

/// The start and the end of a text are boundaries.
pub proof fn lemma_ends_are_boundaries(text: Seq<char>)
    ensures
        on_boundary(text, 0),
        char_index(text, 0) == 0,
        on_boundary(text, byte_len(text) as int),
        char_index(text, byte_len(text) as int) == text.len(),
{
    lemma_index_to_offset(text, 0);
    assert(text.take(0) =~= Seq::<char>::empty());
    lemma_index_to_offset(text, text.len() as int);
    assert(text.take(text.len() as int) =~= text);
}

/// Skipping `k` code points from a boundary leads to a boundary.
pub proof fn lemma_advance(text: Seq<char>, offset: int, k: int)
    requires
        on_boundary(text, offset),
        0 <= k <= chars_from(text, offset).len(),
    ensures
        on_boundary(text, offset + byte_len(chars_from(text, offset).take(k))),
        char_index(text, offset + byte_len(chars_from(text, offset).take(k))) == char_index(
            text,
            offset,
        ) + k,
{
    lemma_offset_to_index(text, offset);
    let i = char_index(text, offset);
    assert(text.take(i + k) =~= text.take(i) + chars_from(text, offset).take(k));
    lemma_byte_len_concat(text.take(i), chars_from(text, offset).take(k));
    lemma_index_to_offset(text, i + k);
}

/// Number of bytes that `c` takes in UTF-8, as `char::len_utf8` gives it.
pub assume_specification[ char::len_utf8 ](c: char) -> (n: usize)
    ensures
        n == encode_scalar(c as u32).len(),
;

/// Number of bytes that `c` takes in UTF-8.
pub fn char_width(c: char) -> (n: usize)
    ensures
        n == byte_len(seq![c]),
        1 <= n <= 4,
{
    proof {
        lemma_byte_len_one(c);
    }
    c.len_utf8()
}

/// The part of `text` from the boundary `offset` on.
pub fn tail_from<'a>(text: &'a str, offset: usize) -> (rest: &'a str)
    requires
        on_boundary(text@, offset as int),
    ensures
        rest@ == chars_from(text@, offset as int),
{
    let (_, rest) = text.split_at(offset);
    proof {
        let bytes = encode_utf8(text@);
        lemma_offset_to_index(text@, offset as int);
        let i = char_index(text@, offset as int);
        assert(text@ =~= text@.take(i) + text@.skip(i));
        lemma_encode_concat(text@.take(i), text@.skip(i));
        assert(bytes.subrange(offset as int, bytes.len() as int) =~= encode_utf8(text@.skip(i)));
        encode_utf8_decode_utf8(rest@);
        encode_utf8_decode_utf8(text@.skip(i));
    }
    rest
}

/// The part of `text` before the boundary `offset`.
pub fn head_to<'a>(text: &'a str, offset: usize) -> (head: &'a str)
    requires
        on_boundary(text@, offset as int),
    ensures
        head@ == text@.take(char_index(text@, offset as int)),
{
    let (head, _) = text.split_at(offset);
    proof {
        lemma_offset_to_index(text@, offset as int);
        encode_utf8_decode_utf8(head@);
    }
    head
}

/// The part of `text` between two boundaries.
pub fn slice_between<'a>(text: &'a str, from: usize, to: usize) -> (part: &'a str)
    requires
        on_boundary(text@, from as int),
        on_boundary(text@, to as int),
        from <= to,
    ensures
        part@ == chars_between(text@, from as int, to as int),
{
    let head = head_to(text, to);
    proof {
        lemma_offset_to_index(text@, from as int);
        lemma_offset_to_index(text@, to as int);
        lemma_boundary_order(text@, from as int, to as int);
        let i = char_index(text@, from as int);
        let j = char_index(text@, to as int);
        assert(head@.take(i) =~= text@.take(i));
        lemma_index_to_offset(head@, i);
    }
    let part = tail_from(head, from);
    proof {
        let i = char_index(text@, from as int);
        let j = char_index(text@, to as int);
        assert(head@.skip(i) =~= text@.subrange(i, j));
    }
    part
}

/// The code point that starts at the boundary `offset`, if the text does
/// not end there.
pub fn char_at(text: &str, offset: usize) -> (c: Option<char>)
    requires
        on_boundary(text@, offset as int),
    ensures
        c == (if chars_from(text@, offset as int).len() > 0 {
            Some(chars_from(text@, offset as int)[0])
        } else {
            None
        }),
{
    broadcast use vstd::string::group_string_axioms;

    let rest = tail_from(text, offset);
    let mut it = rest.chars();
    it.next()
}

} // verus!
