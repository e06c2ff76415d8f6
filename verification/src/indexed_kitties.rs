use std::collections::BTreeMap;
use vstd::prelude::*;

use crate::dna::{child_dna, combine_dna};
use crate::kitties::{breed_outcome, ensure_signed, signer, Kitty, KittyError, Origin};
use crate::randomness::{blake2_128_digest, payload_bytes, random_value, BlockContext};

verus! {

/// What a kitty creation reports in this module: the creator and the random
/// seed of the call.
#[derive(Clone, Copy, Debug, PartialEq, Eq)]
pub enum SeedEvent {
    Created(u64, [u8; 32]),
}

/// The value a lookup gives in a map whose absent keys read as 0.
pub open spec fn value_or_zero<K>(m: Map<K, u32>, k: K) -> u32 {
    if m.contains_key(k) {
        m[k]
    } else {
        0
    }
}

/// The storage of the kitties module that records ownership by index: each
/// account has a kitty count, and its kitties sit under the indices below
/// that count.
pub struct Module {
    kitties: BTreeMap<u32, Kitty>,
    kitties_count: u32,
    owned_kitties: BTreeMap<(u64, u32), u32>,
    owned_kitties_count: BTreeMap<u64, u32>,
}

impl Module {
    /// The kitties, by id.
    pub closed spec fn kitties_map(&self) -> Map<u32, Kitty> {
        self.kitties@
    }

    /// The kitty counter.
    pub closed spec fn count(&self) -> u32 {
        self.kitties_count
    }

    /// The kitty id stored under each (account, index).
    pub closed spec fn owned(&self) -> Map<(u64, u32), u32> {
        self.owned_kitties@
    }

    /// The kitty count stored for each account.
    pub closed spec fn owned_counts(&self) -> Map<u64, u32> {
        self.owned_kitties_count@
    }

    /// The module at genesis: no kitties.
    pub fn new() -> (r: Self)
        ensures
            r.kitties_map() == Map::<u32, Kitty>::empty(),
            r.count() == 0,
            r.owned() == Map::<(u64, u32), u32>::empty(),
            r.owned_counts() == Map::<u64, u32>::empty(),
    {
        Module {
            kitties: BTreeMap::new(),
            kitties_count: 0,
            owned_kitties: BTreeMap::new(),
            owned_kitties_count: BTreeMap::new(),
        }
    }

    /// The kitty with id `kitty_id`, if it exists.
    pub fn kitties(&self, kitty_id: u32) -> (r: Option<Kitty>)
        ensures
            r == self.kitties_map().get(kitty_id),
    {
        match self.kitties.get(&kitty_id) {
            Some(kitty) => Some(*kitty),
            None => None,
        }
    }

    /// The number of kitties created so far.
    pub fn kitties_count(&self) -> (r: u32)
        ensures
            r == self.count(),
    {
        self.kitties_count
    }

    /// The kitty id under index `index` of `account` (0 where none is stored).
    pub fn owned_kitties(&self, account: u64, index: u32) -> (r: u32)
        ensures
            r == value_or_zero(self.owned(), (account, index)),
    {
        match self.owned_kitties.get(&(account, index)) {
            Some(id) => *id,
            None => 0,
        }
    }

    /// The kitty count of `account` (0 where none is stored).
    pub fn owned_kitties_count(&self, account: u64) -> (r: u32)
        ensures
            r == value_or_zero(self.owned_counts(), account),
    {
        match self.owned_kitties_count.get(&account) {
            Some(n) => *n,
            None => 0,
        }
    }

    /// The id the next kitty gets: the counter, unless it is at its largest
    /// value.
    pub fn next_kitty_id(&self) -> (r: Result<u32, KittyError>)
        ensures
            r == (if self.count() == u32::MAX {
                Err::<u32, KittyError>(KittyError::KittiesCountOverflow)
            } else {
                Ok::<u32, KittyError>(self.count())
            }),
    {
        let kitty_id: u32 = self.kitties_count;
        if kitty_id == u32::MAX {
            return Err(KittyError::KittiesCountOverflow);
        }
        Ok(kitty_id)
    }

    /// Stores `kitty` under `kitty_id` with the counter set to
    /// `kitty_id + 1`, and records it under the next index of `owner`.
    pub fn insert_kitty(&mut self, owner: u64, kitty_id: u32, kitty: Kitty)
        requires
            kitty_id < u32::MAX,
            value_or_zero(old(self).owned_counts(), owner) < u32::MAX,
        ensures
            final(self).kitties_map() == old(self).kitties_map().insert(kitty_id, kitty),
            final(self).count() == kitty_id + 1,
            final(self).owned() == old(self).owned().insert(
                (owner, value_or_zero(old(self).owned_counts(), owner)), kitty_id),
            final(self).owned_counts() == old(self).owned_counts().insert(
                owner, (value_or_zero(old(self).owned_counts(), owner) + 1) as u32),
    {
        let _ = self.kitties.insert(kitty_id, kitty);
        self.kitties_count = kitty_id + 1;
        let user_kitty_id: u32 = self.owned_kitties_count(owner);
        let _ = self.owned_kitties.insert((owner, user_kitty_id), kitty_id);
        let _ = self.owned_kitties_count.insert(owner, user_kitty_id + 1);
    }

    /// Creates a kitty for the signer under the next id, with the random
    /// value of the call as its DNA; reports the creator and the seed.
    pub fn create_kitties(&mut self, origin: Origin, context: &BlockContext) -> (r: Result<SeedEvent, KittyError>)
        requires
            signer(origin) matches Ok(who) ==> value_or_zero(old(self).owned_counts(), who) < u32::MAX,
        ensures
            signer(origin) is Err ==> r == Err::<SeedEvent, KittyError>(KittyError::BadOrigin) && *final(self) == *old(self),
            signer(origin) is Ok && old(self).count() == u32::MAX
                ==> r == Err::<SeedEvent, KittyError>(KittyError::KittiesCountOverflow) && *final(self) == *old(self),
            signer(origin) is Ok && old(self).count() != u32::MAX ==> {
                let sender = signer(origin)->Ok_0;
                let id = old(self).count();
                let index = value_or_zero(old(self).owned_counts(), sender);
                &&& r == Ok::<SeedEvent, KittyError>(SeedEvent::Created(sender, context.random_seed))
                &&& final(self).kitties_map() == old(self).kitties_map().insert(id, final(self).kitties_map()[id])
                &&& final(self).kitties_map()[id].0@ == blake2_128_digest(
                    payload_bytes(context.random_seed@, sender, context.extrinsic_index, context.block_number),
                )
                &&& final(self).count() == id + 1
                &&& final(self).owned() == old(self).owned().insert((sender, index), id)
                &&& final(self).owned_counts() == old(self).owned_counts().insert(sender, (index + 1) as u32)
            },
    {
        let sender = match ensure_signed(origin) {
            Ok(who) => who,
            Err(e) => return Err(e),
        };
        let dna = random_value(&sender, context);
        let kitty = Kitty(dna);
        let kitty_id = match self.next_kitty_id() {
            Ok(id) => id,
            Err(e) => return Err(e),
        };
        self.insert_kitty(sender, kitty_id, kitty);
        Ok(SeedEvent::Created(sender, context.random_seed))
    }

    /// Breeds `kitty_id_1` with `kitty_id_2` for `sender`: the child's DNA
    /// combines the parents' DNA byte by byte under `selector`.
    pub fn do_breed_with_selector(&mut self, sender: u64, kitty_id_1: u32, kitty_id_2: u32, selector: [u8; 16]) -> (r: Result<(), KittyError>)
        requires
            value_or_zero(old(self).owned_counts(), sender) < u32::MAX,
        ensures
            breed_outcome(old(self).kitties_map(), old(self).count(), kitty_id_1, kitty_id_2) matches Err(e)
                ==> r == Err::<(), KittyError>(e) && *final(self) == *old(self),
            breed_outcome(old(self).kitties_map(), old(self).count(), kitty_id_1, kitty_id_2) matches Ok(id) ==> {
                let index = value_or_zero(old(self).owned_counts(), sender);
                &&& r == Ok::<(), KittyError>(())
                &&& final(self).kitties_map() == old(self).kitties_map().insert(id, final(self).kitties_map()[id])
                &&& final(self).kitties_map()[id].0@ == child_dna(
                    old(self).kitties_map()[kitty_id_1].0@,
                    old(self).kitties_map()[kitty_id_2].0@,
                    selector@,
                )
                &&& final(self).count() == id + 1
                &&& final(self).owned() == old(self).owned().insert((sender, index), id)
                &&& final(self).owned_counts() == old(self).owned_counts().insert(sender, (index + 1) as u32)
            },
            old(self).kitties_map().contains_key(kitty_id_1) && old(self).kitties_map().contains_key(kitty_id_2)
                && kitty_id_1 != kitty_id_2 && old(self).count() < u32::MAX ==> r == Ok::<(), KittyError>(())
                && final(self).count() == old(self).count() + 1,
    {
        let kitty1 = self.kitties(kitty_id_1);
        let kitty2 = self.kitties(kitty_id_2);

        if kitty1.is_none() {
            return Err(KittyError::InvalidKittyId1);
        }
        if kitty2.is_none() {
            return Err(KittyError::InvalidKittyId2);
        }
        if kitty_id_1 == kitty_id_2 {
            return Err(KittyError::NeedDifferentParent);
        }

        let kitty_id = match self.next_kitty_id() {
            Ok(id) => id,
            Err(e) => return Err(e),
        };

        let kitty1_dna = kitty1.unwrap().0;
        let kitty2_dna = kitty2.unwrap().0;

        let mut new_dna = [0u8; 16];
        let mut i: usize = 0;
        while i < 16
            invariant
                i <= 16,
                forall|j: int| 0 <= j < i ==> #[trigger] new_dna@[j] == crate::dna::spec_combine_dna(
                    kitty1_dna@[j], kitty2_dna@[j], selector@[j]),
            decreases 16 - i,
        {
            new_dna[i] = combine_dna(kitty1_dna[i], kitty2_dna[i], selector[i]);
            i = i + 1;
        }
        assert(new_dna@ =~= child_dna(kitty1_dna@, kitty2_dna@, selector@));
        self.insert_kitty(sender, kitty_id, Kitty(new_dna));
        Ok(())
    }

    /// Breeds two kitties for the signer, with the random value of the call
    /// as the selector.
    pub fn breed_kitty(&mut self, origin: Origin, kitty_id_1: u32, kitty_id_2: u32, context: &BlockContext) -> (r: Result<(), KittyError>)
        requires
            signer(origin) matches Ok(who) ==> value_or_zero(old(self).owned_counts(), who) < u32::MAX,
        ensures
            signer(origin) is Err ==> r == Err::<(), KittyError>(KittyError::BadOrigin) && *final(self) == *old(self),
            signer(origin) is Ok ==> {
                let sender = signer(origin)->Ok_0;
                let index = value_or_zero(old(self).owned_counts(), sender);
                match breed_outcome(old(self).kitties_map(), old(self).count(), kitty_id_1, kitty_id_2) {
                    Err(e) => r == Err::<(), KittyError>(e) && *final(self) == *old(self),
                    Ok(id) => {
                        &&& r == Ok::<(), KittyError>(())
                        &&& final(self).kitties_map() == old(self).kitties_map().insert(id, final(self).kitties_map()[id])
                        &&& final(self).kitties_map()[id].0@ == child_dna(
                            old(self).kitties_map()[kitty_id_1].0@,
                            old(self).kitties_map()[kitty_id_2].0@,
                            blake2_128_digest(
                                payload_bytes(context.random_seed@, sender, context.extrinsic_index, context.block_number),
                            ),
                        )
                        &&& final(self).count() == id + 1
                        &&& final(self).owned() == old(self).owned().insert((sender, index), id)
                        &&& final(self).owned_counts() == old(self).owned_counts().insert(sender, (index + 1) as u32)
                    },
                }
            },
    {
        let sender = match ensure_signed(origin) {
            Ok(who) => who,
            Err(e) => return Err(e),
        };
        let selector = random_value(&sender, context);
        self.do_breed_with_selector(sender, kitty_id_1, kitty_id_2, selector)
    }

    /// Moves the kitty under index `user_kitty_id` of the signer to the same
    /// index of `to`, then adds one to the signer's count and takes one from
    /// `to`'s count. When a count cannot change that way the call is refused,
    /// but the kitty has already moved; when the second count fails, the
    /// first is not written either.
    pub fn transfer_kitty(&mut self, origin: Origin, to: u64, user_kitty_id: u32) -> (r: Result<(), KittyError>)
        ensures
            signer(origin) is Err ==> r == Err::<(), KittyError>(KittyError::BadOrigin) && *final(self) == *old(self),
            signer(origin) is Ok ==> {
                let sender = signer(origin)->Ok_0;
                let kittyid = value_or_zero(old(self).owned(), (sender, user_kitty_id));
                let moved = old(self).owned().remove((sender, user_kitty_id)).insert((to, user_kitty_id), kittyid);
                let from_count = value_or_zero(old(self).owned_counts(), sender);
                let to_count = value_or_zero(old(self).owned_counts(), to);
                &&& final(self).kitties_map() == old(self).kitties_map()
                &&& final(self).count() == old(self).count()
                &&& final(self).owned() == moved
                &&& from_count == u32::MAX ==> r == Err::<(), KittyError>(KittyError::TransferOverflow)
                    && final(self).owned_counts() == old(self).owned_counts()
                &&& from_count < u32::MAX && to_count == 0 ==> r == Err::<(), KittyError>(KittyError::TransferUnderflow)
                    && final(self).owned_counts() == old(self).owned_counts()
                &&& from_count < u32::MAX && to_count > 0 ==> r == Ok::<(), KittyError>(())
                    && final(self).owned_counts() == old(self).owned_counts()
                        .insert(to, (to_count - 1) as u32).insert(sender, (from_count + 1) as u32)
            },
    {
        let sender = match ensure_signed(origin) {
            Ok(who) => who,
            Err(e) => return Err(e),
        };
        let kittyid: u32 = self.owned_kitties(sender, user_kitty_id);
        let _ = self.owned_kitties.remove(&(sender, user_kitty_id));
        let _ = self.owned_kitties.insert((to, user_kitty_id), kittyid);

        let owned_kitties_count_from = match self.owned_kitties_count(sender).checked_add(1) {
            Some(n) => n,
            None => return Err(KittyError::TransferOverflow),
        };
        let owned_kitties_count_to = match self.owned_kitties_count(to).checked_sub(1) {
            Some(n) => n,
            None => return Err(KittyError::TransferUnderflow),
        };
        let _ = self.owned_kitties_count.insert(to, owned_kitties_count_to);
        let _ = self.owned_kitties_count.insert(sender, owned_kitties_count_from);
        Ok(())
    }
}

} // verus!
