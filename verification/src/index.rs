use vstd::prelude::*;

verus! {

/// A generational key into the node arena: a slot number in the low half of
/// `bits` and the generation of that slot in the high half.
#[derive(Clone, Copy, Debug, PartialEq, Eq, Structural, Hash)]
pub struct Index {
    pub bits: u64,
}

impl Index {
    /// The slot that this key addresses.
    pub open spec fn spec_slot(self) -> u32 {
        (self.bits % 0x1_0000_0000) as u32
    }

    /// The generation of the slot for which this key was handed out.
    pub open spec fn spec_generation(self) -> u32 {
        (self.bits / 0x1_0000_0000) as u32
    }

    /// The key made of `slot` and `generation`.
    pub open spec fn spec_new(slot: u32, generation: u32) -> Index {
        Index { bits: (generation as u64 * 0x1_0000_0000 + slot as u64) as u64 }
    }

    pub fn new(slot: u32, generation: u32) -> (r: Index)
        ensures
            r == Index::spec_new(slot, generation),
            r.spec_slot() == slot,
            r.spec_generation() == generation,
    {
        let high: u64 = generation as u64;
        let low: u64 = slot as u64;
        let bits: u64 = (high << 32) | low;
        assert(bits == high * 0x1_0000_0000 + low) by (bit_vector)
            requires
                bits == (high << 32) | low,
                high <= 0xffff_ffff,
                low <= 0xffff_ffff,
        ;
        Index { bits }
    }

    #[verifier::when_used_as_spec(spec_slot)]
    pub fn slot(self) -> (r: u32)
        ensures
            r == self.spec_slot(),
    {
        let bits: u64 = self.bits;
        let low: u64 = bits & 0xffff_ffff;
        assert(low == bits % 0x1_0000_0000) by (bit_vector)
            requires
                low == bits & 0xffff_ffff,
        ;
        low as u32
    }

    #[verifier::when_used_as_spec(spec_generation)]
    pub fn generation(self) -> (r: u32)
        ensures
            r == self.spec_generation(),
    {
        let bits: u64 = self.bits;
        let high: u64 = bits >> 32;
        assert(high == bits / 0x1_0000_0000 && high <= 0xffff_ffff) by (bit_vector)
            requires
                high == bits >> 32,
        ;
        high as u32
    }

    /// The key as one integer.
    pub fn to_bits(self) -> (r: u64)
        ensures
            r == self.bits,
    {
        self.bits
    }

    /// The key that `bits` encodes.
    pub fn from_bits(bits: u64) -> (r: Index)
        ensures
            r.bits == bits,
    {
        Index { bits }
    }
}

/// A key is its slot and its generation: two keys that agree on both are one key.
pub proof fn lemma_index_parts(a: Index, b: Index)
    requires
        a.spec_slot() == b.spec_slot(),
        a.spec_generation() == b.spec_generation(),
    ensures
        a == b,
{
    let x = a.bits;
    let y = b.bits;
    assert(x == (x / 0x1_0000_0000) * 0x1_0000_0000 + x % 0x1_0000_0000) by (bit_vector);
    assert(y == (y / 0x1_0000_0000) * 0x1_0000_0000 + y % 0x1_0000_0000) by (bit_vector);
    assert(x / 0x1_0000_0000 <= 0xffff_ffff) by (bit_vector);
    assert(y / 0x1_0000_0000 <= 0xffff_ffff) by (bit_vector);
}

} // verus!
