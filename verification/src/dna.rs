use vstd::prelude::*;

verus! {

/// The DNA byte of a child: every bit where `selector` is set comes from
/// `dna1`, every other bit from `dna2`.
pub open spec fn spec_combine_dna(dna1: u8, dna2: u8, selector: u8) -> u8 {
    (selector & dna1) | (!selector & dna2)
}

/// Bit `index` of `num`, as `0` or `1`.
pub fn map_bits(num: u8, index: u8) -> (flag: u8)
    requires
        index < 8,
    ensures
        flag == (num >> index) & 1u8,
        flag == 0 || flag == 1,
{
    let x: u8 = 0b00000001;
    let flag: u8 = (num >> index) & x;
    assert((num >> index) & 1u8 <= 1u8) by (bit_vector);
    flag
}

proof fn lemma_combine_step(acc: u8, dna1: u8, dna2: u8, selector: u8, i: u8)
    requires
        i < 8,
        acc as u16 == (((selector & dna1) | (!selector & dna2)) as u16) & (((1u16 << i) - 1u16) as u16),
    ensures
        ((acc | (if (selector >> i) & 1u8 == 1u8 { dna1 & (1u8 << i) } else { dna2 & (1u8 << i) })) as u16)
            == (((selector & dna1) | (!selector & dna2)) as u16) & (((1u16 << ((i + 1) as u16)) - 1u16) as u16),
{
    assert(
        ((acc | (if (selector >> i) & 1u8 == 1u8 { dna1 & (1u8 << i) } else { dna2 & (1u8 << i) })) as u16)
            == (((selector & dna1) | (!selector & dna2)) as u16) & (((1u16 << ((i + 1) as u16)) - 1u16) as u16)
    ) by (bit_vector)
        requires
            i < 8,
            acc as u16 == (((selector & dna1) | (!selector & dna2)) as u16) & (((1u16 << i) - 1u16) as u16),
    ;
}

/// Combines one byte of two parents' DNA under a selector byte, bit by bit:
/// bit `i` of the result is bit `i` of `dna1` where bit `i` of `selector`
/// is 1, and bit `i` of `dna2` where it is 0.
pub fn combine_dna(dna1: u8, dna2: u8, selector: u8) -> (new_dna: u8)
    ensures
        new_dna == spec_combine_dna(dna1, dna2, selector),
{
    let mut i: u8 = 0;
    let mut new_dna: u8 = 0;
    assert((new_dna as u16) == (((selector & dna1) | (!selector & dna2)) as u16) & (((1u16 << 0u8) - 1u16) as u16)) by (bit_vector)
        requires new_dna == 0u8;
    while i < 8
        invariant
            i <= 8,
            new_dna as u16 == (((selector & dna1) | (!selector & dna2)) as u16) & (((1u16 << i) - 1u16) as u16),
        decreases 8 - i,
    {
        let bit: u8 = map_bits(selector, i);
        let choose: u8 = if bit == 1 {
            dna1 & (1u8 << i)
        } else {
            dna2 & (1u8 << i)
        };
        proof {
            lemma_combine_step(new_dna, dna1, dna2, selector, i);
        }
        new_dna = new_dna | choose;
        i = i + 1;
    }
    assert(new_dna == (selector & dna1) | (!selector & dna2)) by (bit_vector)
        requires
            new_dna as u16 == (((selector & dna1) | (!selector & dna2)) as u16) & (((1u16 << 8u8) - 1u16) as u16);
    new_dna
}

/// The 16 DNA bytes of a child: byte `i` combines byte `i` of the parents
/// under byte `i` of the selector.
pub open spec fn child_dna(dna1: Seq<u8>, dna2: Seq<u8>, selector: Seq<u8>) -> Seq<u8> {
    Seq::new(16, |i: int| spec_combine_dna(dna1[i], dna2[i], selector[i]))
}

/// Bit by bit, a combined DNA byte takes bit `index` from `dna1` where bit
/// `index` of `selector` is 1, and from `dna2` where it is 0.
pub proof fn lemma_combine_dna_bits(dna1: u8, dna2: u8, selector: u8, index: u8)
    requires
        index < 8,
    ensures
        spec_combine_dna(dna1, dna2, selector) & (1u8 << index) == (if (selector >> index) & 1u8 == 1u8 {
            dna1 & (1u8 << index)
        } else {
            dna2 & (1u8 << index)
        }),
{
    assert(((selector & dna1) | (!selector & dna2)) & (1u8 << index) == (if (selector >> index) & 1u8 == 1u8 {
        dna1 & (1u8 << index)
    } else {
        dna2 & (1u8 << index)
    })) by (bit_vector)
        requires
            index < 8,
    ;
}

/// A child of two kitties with the same DNA has that DNA, whatever the
/// selector.
pub proof fn lemma_combine_same_parents(dna: u8, selector: u8)
    ensures
        spec_combine_dna(dna, dna, selector) == dna,
{
    assert((selector & dna) | (!selector & dna) == dna) by (bit_vector);
}

/// A selector with all bits set gives the first parent's DNA, one with no
/// bit set the second parent's.
pub proof fn lemma_combine_dna_extremes(dna1: u8, dna2: u8)
    ensures
        spec_combine_dna(dna1, dna2, 0xffu8) == dna1,
        spec_combine_dna(dna1, dna2, 0u8) == dna2,
{
    assert((0xffu8 & dna1) | (!0xffu8 & dna2) == dna1) by (bit_vector);
    assert((0u8 & dna1) | (!0u8 & dna2) == dna2) by (bit_vector);
}

} // verus!
