use std::collections::BTreeMap;
use vstd::prelude::*;

use crate::kitties::{ensure_signed, signer, KittyError, Origin};
use crate::randomness::{blake2_128_digest, payload_bytes, random_value, BlockContext};

verus! {

/// A kitty of the second design: an id, its DNA, a price and its generation.
#[derive(Clone, Copy, Debug, PartialEq, Eq)]
pub struct DesignKitty {
    pub id: [u8; 16],
    pub dna: [u8; 16],
    pub price: u64,
    pub gen: u32,
}

/// The kitty a lookup gives for an id with nothing stored.
pub open spec fn default_kitty() -> DesignKitty {
    DesignKitty { id: [0u8; 16usize], dna: [0u8; 16usize], price: 0, gen: 0 }
}

/// The DNA of a child of the second design: byte `i` is the second parent's
/// where byte `i` of the random value is even, else the first parent's.
pub open spec fn mixed_dna(dna1: Seq<u8>, dna2: Seq<u8>, random: Seq<u8>) -> Seq<u8> {
    Seq::new(16, |i: int| if random[i] % 2 == 0 { dna2[i] } else { dna1[i] })
}

/// The larger of two generations.
pub open spec fn max_gen(a: u32, b: u32) -> u32 {
    if a >= b { a } else { b }
}

/// The generation after two parents is one past each of them and one past
/// one of them: the larger is at least each, and is one of the two.
pub proof fn lemma_max_gen_is_larger_parent(a: u32, b: u32)
    ensures
        max_gen(a, b) >= a,
        max_gen(a, b) >= b,
        max_gen(a, b) == a || max_gen(a, b) == b,
{
}

/// The storage of the second design: kitties by id, with a default kitty
/// for every id with nothing stored, and the kitty counter.
pub struct KittyBook {
    kitties: BTreeMap<u32, DesignKitty>,
    kitties_count: u32,
}

impl KittyBook {
    /// The kitties stored, by id.
    pub closed spec fn stored(&self) -> Map<u32, DesignKitty> {
        self.kitties@
    }

    /// The kitty counter.
    pub closed spec fn count(&self) -> u32 {
        self.kitties_count
    }

    /// The kitty that a lookup of `id` gives.
    pub open spec fn kitty_at(&self, id: u32) -> DesignKitty {
        if self.stored().contains_key(id) {
            self.stored()[id]
        } else {
            default_kitty()
        }
    }

    /// An empty book.
    pub fn new() -> (r: Self)
        ensures
            r.stored() == Map::<u32, DesignKitty>::empty(),
            r.count() == 0,
    {
        KittyBook { kitties: BTreeMap::new(), kitties_count: 0 }
    }

    /// The kitty stored under `id`, or the default kitty.
    pub fn kitty(&self, id: u32) -> (r: DesignKitty)
        ensures
            r == self.kitty_at(id),
    {
        match self.kitties.get(&id) {
            Some(k) => *k,
            None => DesignKitty { id: [0u8; 16], dna: [0u8; 16], price: 0, gen: 0 },
        }
    }

    /// The kitty counter.
    pub fn kitties_count(&self) -> (r: u32)
        ensures
            r == self.count(),
    {
        self.kitties_count
    }

    /// Breeds the kitties `id1` and `id2` with the random value `random`:
    /// the child takes each DNA byte from one parent, chosen by the parity of
    /// the matching random byte, has `random` as its id, price 0 and the
    /// generation after the older parent's; it is stored under the counter
    /// plus one, which becomes the new counter.
    pub fn breed_with_random(&mut self, id1: u32, id2: u32, random: [u8; 16]) -> (r: Result<(), KittyError>)
        requires
            max_gen(old(self).kitty_at(id1).gen, old(self).kitty_at(id2).gen) < u32::MAX,
        ensures
            old(self).count() == u32::MAX ==> r == Err::<(), KittyError>(KittyError::KittiesCountOverflow)
                && final(self).stored() == old(self).stored() && final(self).count() == old(self).count(),
            old(self).count() < u32::MAX ==> {
                let n = (old(self).count() + 1) as u32;
                let child = final(self).stored()[n];
                &&& r == Ok::<(), KittyError>(())
                &&& final(self).count() == n
                &&& final(self).stored() == old(self).stored().insert(n, child)
                &&& child.id == random
                &&& child.dna@ == mixed_dna(old(self).kitty_at(id1).dna@, old(self).kitty_at(id2).dna@, random@)
                &&& child.price == 0
                &&& child.gen == max_gen(old(self).kitty_at(id1).gen, old(self).kitty_at(id2).gen) + 1
            },
            old(self).count() < u32::MAX ==> {
                let child = final(self).stored()[(old(self).count() + 1) as u32];
                &&& child.gen > old(self).kitty_at(id1).gen
                &&& child.gen > old(self).kitty_at(id2).gen
                &&& (child.gen - 1 == old(self).kitty_at(id1).gen || child.gen - 1 == old(self).kitty_at(id2).gen)
            },
    {
        let kitty1 = self.kitty(id1);
        let kitty2 = self.kitty(id2);

        let mut final_dna = kitty1.dna;
        let mut i: usize = 0;
        while i < 16
            invariant
                i <= 16,
                forall|j: int| 0 <= j < i ==> #[trigger] final_dna@[j] == (if random@[j] % 2 == 0 {
                    kitty2.dna@[j]
                } else {
                    kitty1.dna@[j]
                }),
                forall|j: int| i <= j < 16 ==> #[trigger] final_dna@[j] == kitty1.dna@[j],
            decreases 16 - i,
        {
            if random[i] % 2 == 0 {
                final_dna[i] = kitty2.dna[i];
            }
            i = i + 1;
        }
        assert(final_dna@ =~= mixed_dna(kitty1.dna@, kitty2.dna@, random@));
        let gen: u32 = if kitty1.gen >= kitty2.gen { kitty1.gen } else { kitty2.gen };
        let new_kitty = DesignKitty { id: random, dna: final_dna, price: 0, gen: gen + 1 };

        let count: u32 = self.kitties_count;
        let new_count = match count.checked_add(1) {
            Some(c) => c,
            None => return Err(KittyError::KittiesCountOverflow),
        };
        let _ = self.kitties.insert(new_count, new_kitty);
        self.kitties_count = new_count;
        Ok(())
    }

    /// Breeds the kitties `id1` and `id2` for the signer, with the random
    /// value of the call.
    pub fn breed_kitty(&mut self, origin: Origin, id1: u32, id2: u32, context: &BlockContext) -> (r: Result<(), KittyError>)
        requires
            max_gen(old(self).kitty_at(id1).gen, old(self).kitty_at(id2).gen) < u32::MAX,
        ensures
            signer(origin) is Err ==> r == Err::<(), KittyError>(KittyError::BadOrigin)
                && final(self).stored() == old(self).stored() && final(self).count() == old(self).count(),
            signer(origin) is Ok && old(self).count() == u32::MAX
                ==> r == Err::<(), KittyError>(KittyError::KittiesCountOverflow)
                && final(self).stored() == old(self).stored() && final(self).count() == old(self).count(),
            signer(origin) is Ok && old(self).count() < u32::MAX ==> {
                let n = (old(self).count() + 1) as u32;
                let child = final(self).stored()[n];
                let random = blake2_128_digest(payload_bytes(
                    context.random_seed@, signer(origin)->Ok_0, context.extrinsic_index, context.block_number));
                &&& r == Ok::<(), KittyError>(())
                &&& final(self).count() == n
                &&& final(self).stored() == old(self).stored().insert(n, child)
                &&& child.id@ == random
                &&& child.dna@ == mixed_dna(old(self).kitty_at(id1).dna@, old(self).kitty_at(id2).dna@, random)
                &&& child.price == 0
                &&& child.gen == max_gen(old(self).kitty_at(id1).gen, old(self).kitty_at(id2).gen) + 1
            },
            signer(origin) is Ok && old(self).count() < u32::MAX ==> {
                let child = final(self).stored()[(old(self).count() + 1) as u32];
                &&& child.gen > old(self).kitty_at(id1).gen
                &&& child.gen > old(self).kitty_at(id2).gen
                &&& (child.gen - 1 == old(self).kitty_at(id1).gen || child.gen - 1 == old(self).kitty_at(id2).gen)
            },
    {
        let sender = match ensure_signed(origin) {
            Ok(who) => who,
            Err(e) => return Err(e),
        };
        let random = random_value(&sender, context);
        self.breed_with_random(id1, id2, random)
    }
}

/// Every DNA byte of a child of the second design is the matching byte of
/// one of its parents.
pub proof fn lemma_child_inherits(dna1: Seq<u8>, dna2: Seq<u8>, random: Seq<u8>)
    ensures
        forall|i: int| 0 <= i < 16 ==> #[trigger] mixed_dna(dna1, dna2, random)[i] == dna1[i]
            || mixed_dna(dna1, dna2, random)[i] == dna2[i],
{
}

/// A random value with only odd bytes gives the first parent's DNA, one with
/// only even bytes the second parent's.
pub proof fn lemma_mixed_dna_extremes(dna1: Seq<u8>, dna2: Seq<u8>, random: Seq<u8>)
    requires
        dna1.len() == 16,
        dna2.len() == 16,
    ensures
        (forall|i: int| 0 <= i < 16 ==> #[trigger] random[i] % 2 == 1) ==> mixed_dna(dna1, dna2, random) == dna1,
        (forall|i: int| 0 <= i < 16 ==> #[trigger] random[i] % 2 == 0) ==> mixed_dna(dna1, dna2, random) == dna2,
{
    if forall|i: int| 0 <= i < 16 ==> #[trigger] random[i] % 2 == 1 {
        assert(mixed_dna(dna1, dna2, random) =~= dna1);
    }
    if forall|i: int| 0 <= i < 16 ==> #[trigger] random[i] % 2 == 0 {
        assert(mixed_dna(dna1, dna2, random) =~= dna2);
    }
}

} // verus!
