use vstd::prelude::*;

verus! {

/// Mask selecting the in-segment part of a packed node index (the low 30 bits).
pub const INDEX_MASK: u32 = 0x3FFF_FFFF;

/// Position of a node in the tree: the low 30 bits are the index inside a segment,
/// the high 2 bits are the segment number. `u32::MAX` is the null index.
#[derive(Clone, Copy, PartialEq, Eq, Structural, Debug)]
pub struct NodeIndex(pub u32);

impl NodeIndex {
    /// In-segment index of a packed node index.
    pub open spec fn spec_index(self) -> u32 {
        self.0 & INDEX_MASK
    }

    /// Segment number of a packed node index.
    pub open spec fn spec_segment(self) -> int {
        (self.0 >> 30u32) as int
    }

    pub open spec fn spec_is_null(self) -> bool {
        self.0 == u32::MAX
    }

    /// The raw value that `from_parts` packs.
    pub open spec fn packed(index: u32, segment: u32) -> u32 {
        (segment << 30u32) | (index & INDEX_MASK)
    }

    /// The null index, which points at no node.
    pub fn null() -> (r: NodeIndex)
        ensures
            r.0 == u32::MAX,
            r.spec_is_null(),
            r.spec_segment() == 3,
    {
        assert(u32::MAX >> 30u32 == 3) by (bit_vector);
        NodeIndex(u32::MAX)
    }

    pub fn from_raw(value: u32) -> (r: NodeIndex)
        ensures
            r.0 == value,
    {
        NodeIndex(value)
    }

    /// Packs an in-segment index (its low 30 bits) and a segment number.
    pub fn from_parts(index: u32, segment: u32) -> (r: NodeIndex)
        ensures
            r.0 == NodeIndex::packed(index, segment),
            segment < 4 ==> r.spec_segment() == segment,
            r.spec_index() == index & INDEX_MASK,
            index <= INDEX_MASK ==> r.spec_index() == index,
    {
        let r = NodeIndex((segment << 30u32) | (index & INDEX_MASK));
        assert(index <= 0x3FFF_FFFFu32 ==> index & 0x3FFF_FFFFu32 == index) by (bit_vector);
        assert(((segment << 30u32) | (index & 0x3FFF_FFFFu32)) & 0x3FFF_FFFFu32 == index
            & 0x3FFF_FFFFu32) by (bit_vector);
        assert(segment < 4 ==> ((segment << 30u32) | (index & 0x3FFF_FFFFu32)) >> 30u32
            == segment) by (bit_vector);
        r
    }

    pub fn get_raw(&self) -> (r: u32)
        ensures
            r == self.0,
    {
        self.0
    }

    pub fn index(&self) -> (r: u32)
        ensures
            r == self.spec_index(),
            r <= INDEX_MASK,
    {
        let raw = self.0;
        assert(raw & 0x3FFF_FFFFu32 <= 0x3FFF_FFFFu32) by (bit_vector);
        raw & INDEX_MASK
    }

    pub fn segment(&self) -> (r: usize)
        ensures
            r == self.spec_segment(),
            r < 4,
    {
        let raw = self.0;
        assert(raw >> 30u32 < 4) by (bit_vector);
        (raw >> 30u32) as usize
    }

    pub fn is_null(&self) -> (r: bool)
        ensures
            r == self.spec_is_null(),
    {
        self.0 == u32::MAX
    }
}

/// Packing an index below `2^30` and a segment below `4` and unpacking gives both back.
pub proof fn lemma_parts_roundtrip(index: u32, segment: u32)
    requires
        index <= INDEX_MASK,
        segment < 4,
    ensures
        NodeIndex(NodeIndex::packed(index, segment)).spec_index() == index,
        NodeIndex(NodeIndex::packed(index, segment)).spec_segment() == segment,
{
    assert(((segment << 30u32) | (index & 0x3FFF_FFFFu32)) & 0x3FFF_FFFFu32 == index) by (bit_vector)
        requires
            index <= 0x3FFF_FFFFu32,
    ;
    assert(((segment << 30u32) | (index & 0x3FFF_FFFFu32)) >> 30u32 == segment) by (bit_vector)
        requires
            segment < 4,
    ;
}

/// Every raw index is the packing of its own index and segment.
pub proof fn lemma_parts_cover(n: NodeIndex)
    ensures
        NodeIndex::packed(n.spec_index(), n.spec_segment() as u32) == n.0,
{
    let raw = n.0;
    assert(((raw >> 30u32) << 30u32) | ((raw & 0x3FFF_FFFFu32) & 0x3FFF_FFFFu32) == raw) by (bit_vector);
}

/// Only the null index is null; an index packed from a segment below `3` never is.
pub proof fn lemma_parts_not_null(index: u32, segment: u32)
    requires
        segment < 3,
    ensures
        !NodeIndex(NodeIndex::packed(index, segment)).spec_is_null(),
{
    assert(segment < 3 ==> ((segment << 30u32) | (index & 0x3FFF_FFFFu32)) != 0xFFFF_FFFFu32) by (bit_vector);
}

} // verus!
