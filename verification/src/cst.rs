//! A weakly typed node of a syntax tree: a kind, a byte range and children.

use std::ops::Range;
use vstd::std_specs::convert::{FromSpec, IntoSpec};
use vstd::prelude::*;

verus! {

/// A kind of node: a type that converts from and to the number that a node
/// holds.
pub trait NodeType: Copy + From<i16> + Into<i16> {

}

/// A node of a syntax tree. Its kind is held as a number, its range as two
/// byte offsets of 32 bits.
#[derive(Debug)]
pub struct ConcreteNode {
    /// The kind of the node.
    pub kind: i16,
    /// The bytes that the node covers.
    pub range: Range<u32>,
    /// The children of the node.
    pub children: Vec<ConcreteNode>,
}

/// The low 32 bits of `n`.
pub open spec fn low_bits(n: usize) -> u32 {
    ((n as int) % 0x1_0000_0000) as u32
}

/// The low 32 bits of `n`.
pub fn truncate(n: usize) -> (r: u32)
    ensures
        r == low_bits(n),
{
    ((n as u64) % 0x1_0000_0000u64) as u32
}

/// True when one of `kinds` converts to the number `kind`.
pub open spec fn holds_kind<N: NodeType>(kinds: Seq<N>, kind: i16) -> bool {
    exists|i: int| 0 <= i < kinds.len() && (#[trigger] kinds[i]).into_spec() == kind
}

impl ConcreteNode {
    /// A node of kind 0 without children, over the empty range at `offset`.
    pub fn new(offset: usize) -> (n: ConcreteNode)
        ensures
            n.kind == 0,
            n.range.start == low_bits(offset),
            n.range.end == low_bits(offset),
            n.children@.len() == 0,
    {
        let at = truncate(offset);
        ConcreteNode { kind: 0, range: Range { start: at, end: at }, children: Vec::new() }
    }

    /// The kind of the node.
    pub fn get_kind<N: NodeType>(&self) -> (kind: N)
        ensures
            N::obeys_from_spec() ==> kind == N::from_spec(self.kind),
    {
        N::from(self.kind)
    }

    /// Sets the kind of the node.
    pub fn set_kind<N: NodeType>(&mut self, kind: N)
        ensures
            N::obeys_into_spec() ==> final(self).kind == kind.into_spec(),
            final(self).range == old(self).range,
            final(self).children == old(self).children,
    {
        self.kind = kind.into();
    }

    /// The node with another kind.
    pub fn with_kind<N: NodeType>(self, kind: N) -> (n: ConcreteNode)
        ensures
            N::obeys_into_spec() ==> n.kind == kind.into_spec(),
            n.range == self.range,
            n.children == self.children,
    {
        let mut n = self;
        n.set_kind(kind);
        n
    }

    /// The children of the node.
    pub fn get_children(&self) -> (c: &[ConcreteNode])
        ensures
            c@ == self.children@,
    {
        self.children.as_slice()
    }

    /// Adds a child after the others.
    pub fn add_child(&mut self, child: ConcreteNode)
        ensures
            final(self).children@ == old(self).children@.push(child),
            final(self).kind == old(self).kind,
            final(self).range == old(self).range,
    {
        self.children.push(child);
    }

    /// Replaces the children.
    pub fn set_children(&mut self, children: Vec<ConcreteNode>)
        ensures
            final(self).children == children,
            final(self).kind == old(self).kind,
            final(self).range == old(self).range,
    {
        self.children = children;
    }

    /// The node with other children.
    pub fn with_children(self, children: Vec<ConcreteNode>) -> (n: ConcreteNode)
        ensures
            n.children == children,
            n.kind == self.kind,
            n.range == self.range,
    {
        let mut n = self;
        n.set_children(children);
        n
    }

    /// The bytes that the node covers.
    pub fn get_range(&self) -> (r: Range<usize>)
        ensures
            r.start == self.range.start,
            r.end == self.range.end,
    {
        Range { start: self.range.start as usize, end: self.range.end as usize }
    }

    /// Sets the range of the node. Of each offset the low 32 bits are kept.
    pub fn set_range(&mut self, start: usize, end: usize)
        ensures
            final(self).range.start == low_bits(start),
            final(self).range.end == low_bits(end),
            final(self).kind == old(self).kind,
            final(self).children == old(self).children,
    {
        self.range = Range { start: truncate(start), end: truncate(end) };
    }

    /// The node with another range.
    pub fn with_range(self, start: usize, end: usize) -> (n: ConcreteNode)
        ensures
            n.range.start == low_bits(start),
            n.range.end == low_bits(end),
            n.kind == self.kind,
            n.children == self.children,
    {
        let mut n = self;
        n.set_range(start, end);
        n
    }

    /// True when the node is of one of the given kinds.
    pub fn is_a<N: NodeType>(&self, kind: &[N]) -> (b: bool)
        ensures
            N::obeys_into_spec() ==> b == holds_kind(kind@, self.kind),
    {
        let mut i: usize = 0;
        while i < kind.len()
            invariant
                i <= kind.len(),
                N::obeys_into_spec() ==> forall|k: int|
                    0 <= k < i ==> (#[trigger] kind@[k]).into_spec() != self.kind,
            decreases kind.len() - i,
        {
            let k: i16 = kind[i].into();
            if self.kind == k {
                return true;
            }
            i = i + 1;
        }
        false
    }
}

} // verus!
