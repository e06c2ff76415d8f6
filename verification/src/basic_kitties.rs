use std::collections::BTreeMap;
use vstd::prelude::*;

use crate::dna::{child_dna, combine_dna};
use crate::kitties::{breed_outcome, ensure_signed, signer, Kitty, KittyError, Origin};
use crate::owned_kitties::{appended, lemma_list_kept_elsewhere, lemma_list_of, list_of, removed, stores_list, LinkedItem, OwnedKitties};
use crate::randomness::{blake2_128_digest, payload_bytes, random_value, BlockContext};

verus! {

/// The storage of the kitties module without owner records or prices: who
/// owns a kitty is told by the owned-kitties lists alone.
pub struct Module {
    kitties: BTreeMap<u32, Kitty>,
    kitties_count: u32,
    owned_kitties: OwnedKitties,
}

/// `s` with `k` at the end contains exactly what `s` contains, and `k`.
proof fn lemma_push_contains(s: Seq<u32>, k: u32, x: u32)
    ensures
        s.push(k).contains(x) == (s.contains(x) || x == k),
{
    if s.push(k).contains(x) && x != k {
        let i = choose|i: int| 0 <= i < s.push(k).len() && s.push(k)[i] == x;
        assert(s[i] == x);
    }
    if s.contains(x) {
        let i = choose|i: int| 0 <= i < s.len() && s[i] == x;
        assert(s.push(k)[i] == x);
    }
    if x == k {
        assert(s.push(k)[s.len() as int] == x);
    }
}

/// Adding a kitty under the next id keeps the invariant and puts the kitty
/// at the end of its owner's list, leaving the other lists alone.
pub proof fn lemma_insert_keeps_inv(pre: Module, post: Module, owner: u64, kitty_id: u32, kitty: Kitty)
    requires
        pre.inv(),
        kitty_id == pre.count(),
        kitty_id < u32::MAX,
        post.kitties_map() == pre.kitties_map().insert(kitty_id, kitty),
        post.count() == kitty_id + 1,
        post.owned() == appended(pre.owned(), owner, kitty_id),
    ensures
        post.inv(),
        post.owned_list(owner) == pre.owned_list(owner).push(kitty_id),
        forall|b: u64| b != owner ==> #[trigger] post.owned_list(b) == pre.owned_list(b),
{
    assert(!pre.kitties_map().contains_key(kitty_id));
    assert forall|a: u64| !(#[trigger] pre.owned_list(a).contains(kitty_id)) by {}
    let l = pre.owned_list(owner);
    assert(stores_list(pre.owned(), owner, l));
    crate::owned_kitties::lemma_append_pushes(pre.owned(), owner, l, kitty_id);
    lemma_list_of(post.owned(), owner, l.push(kitty_id));
    crate::owned_kitties::lemma_appended_elsewhere(pre.owned(), owner, kitty_id);
    assert forall|b: u64| b != owner implies #[trigger] post.owned_list(b) == pre.owned_list(b) by {
        assert(stores_list(pre.owned(), b, pre.owned_list(b)));
        lemma_list_kept_elsewhere(pre.owned(), post.owned(), owner, b, pre.owned_list(b));
        lemma_list_of(post.owned(), b, pre.owned_list(b));
    }
    assert forall|a: u64| #[trigger] stores_list(post.owned(), a, post.owned_list(a)) by {
        if a != owner {
            assert(stores_list(pre.owned(), a, pre.owned_list(a)));
            lemma_list_kept_elsewhere(pre.owned(), post.owned(), owner, a, pre.owned_list(a));
            lemma_list_of(post.owned(), a, pre.owned_list(a));
        }
    }
    assert forall|a: u64, k: u32| #[trigger] post.owned_list(a).contains(k)
        implies (if a == owner { pre.owned_list(a).contains(k) || k == kitty_id } else { pre.owned_list(a).contains(k) }) by {
        if a == owner {
            lemma_push_contains(l, kitty_id, k);
        }
    }
    assert forall|a: u64, b: u64, k: u32| #[trigger] post.owned_list(a).contains(k) && #[trigger] post.owned_list(b).contains(k)
        implies a == b by {
        if a == owner {
            lemma_push_contains(l, kitty_id, k);
        }
        if b == owner {
            lemma_push_contains(l, kitty_id, k);
        }
    }
    assert forall|a: u64, k: u32| #[trigger] post.owned_list(a).contains(k) implies post.kitties_map().contains_key(k) by {
        if a == owner {
            lemma_push_contains(l, kitty_id, k);
        }
    }
    assert forall|k: u32| #[trigger] post.kitties_map().contains_key(k) implies exists|a: u64| #[trigger] post.owned_list(a).contains(k) by {
        if k == kitty_id {
            lemma_push_contains(l, kitty_id, k);
            assert(post.owned_list(owner).contains(k));
        } else {
            assert(pre.kitties_map().contains_key(k));
            let a = choose|a: u64| #[trigger] pre.owned_list(a).contains(k);
            if a == owner {
                lemma_push_contains(l, kitty_id, k);
            }
            assert(post.owned_list(a).contains(k));
        }
    }
}

/// Giving a kitty of `sender`'s list to another account keeps the
/// invariant: the kitty leaves `sender`'s list and goes to the end of `to`'s.
pub proof fn lemma_transfer_keeps_inv(pre: Module, post: Module, sender: u64, to: u64, kitty_id: u32)
    requires
        pre.inv(),
        sender != to,
        pre.owned().contains_key((sender, Some(kitty_id))),
        post.kitties_map() == pre.kitties_map(),
        post.count() == pre.count(),
        post.owned() == removed(appended(pre.owned(), to, kitty_id), sender, kitty_id),
    ensures
        post.inv(),
        post.owned_list(sender) == pre.owned_list(sender).remove(pre.owned_list(sender).index_of(kitty_id)),
        post.owned_list(to) == pre.owned_list(to).push(kitty_id),
        forall|b: u64| b != sender && b != to ==> #[trigger] post.owned_list(b) == pre.owned_list(b),
{
    let ls = pre.owned_list(sender);
    let lt = pre.owned_list(to);
    assert(stores_list(pre.owned(), sender, ls));
    assert(stores_list(pre.owned(), to, lt));
    crate::owned_kitties::lemma_member_has_node(pre.owned(), sender, ls, kitty_id);
    assert(ls.contains(kitty_id));
    assert(!lt.contains(kitty_id));
    let m1 = appended(pre.owned(), to, kitty_id);
    crate::owned_kitties::lemma_append_pushes(pre.owned(), to, lt, kitty_id);
    crate::owned_kitties::lemma_appended_elsewhere(pre.owned(), to, kitty_id);
    lemma_list_kept_elsewhere(pre.owned(), m1, to, sender, ls);
    let j = ls.index_of(kitty_id);
    let rest = ls.remove(j);
    crate::owned_kitties::lemma_stored_list_distinct(pre.owned(), sender, ls);
    crate::owned_kitties::lemma_remove_deletes(m1, sender, ls, j);
    crate::owned_kitties::lemma_removed_elsewhere(m1, sender, kitty_id);
    lemma_list_kept_elsewhere(m1, post.owned(), sender, to, lt.push(kitty_id));
    lemma_list_of(post.owned(), sender, rest);
    lemma_list_of(post.owned(), to, lt.push(kitty_id));
    assert forall|x: u32| #[trigger] rest.contains(x) == (ls.contains(x) && x != kitty_id) by {
        crate::kitties::lemma_remove_contains(ls, j, x);
    }
    assert forall|x: u32| #[trigger] lt.push(kitty_id).contains(x) == (lt.contains(x) || x == kitty_id) by {
        lemma_push_contains(lt, kitty_id, x);
    }
    assert forall|b: u64| b != sender && b != to implies #[trigger] post.owned_list(b) == pre.owned_list(b) by {
        assert(stores_list(pre.owned(), b, pre.owned_list(b)));
        lemma_list_kept_elsewhere(pre.owned(), m1, to, b, pre.owned_list(b));
        lemma_list_kept_elsewhere(m1, post.owned(), sender, b, pre.owned_list(b));
        lemma_list_of(post.owned(), b, pre.owned_list(b));
    }
    assert forall|a: u64| #[trigger] stores_list(post.owned(), a, post.owned_list(a)) by {
        if a != sender && a != to {
            assert(stores_list(pre.owned(), a, pre.owned_list(a)));
            lemma_list_kept_elsewhere(pre.owned(), m1, to, a, pre.owned_list(a));
            lemma_list_kept_elsewhere(m1, post.owned(), sender, a, pre.owned_list(a));
            lemma_list_of(post.owned(), a, pre.owned_list(a));
        }
    }
    assert forall|a: u64, k: u32| #[trigger] post.owned_list(a).contains(k)
        implies (if a == to { lt.contains(k) || k == kitty_id } else { pre.owned_list(a).contains(k) && k != kitty_id }) by {
        if a != sender && a != to {
            assert(post.owned_list(a) == pre.owned_list(a));
            if k == kitty_id {
                assert(pre.owned_list(sender).contains(k));
            }
        }
    }
    assert forall|a: u64, b: u64, k: u32| #[trigger] post.owned_list(a).contains(k) && #[trigger] post.owned_list(b).contains(k)
        implies a == b by {
        if k == kitty_id {
        } else {
            assert(pre.owned_list(a).contains(k) || a == to);
            if a == to {
                assert(lt.contains(k));
            }
            if b == to {
                assert(lt.contains(k));
            }
        }
    }
    assert forall|a: u64, k: u32| #[trigger] post.owned_list(a).contains(k) implies post.kitties_map().contains_key(k) by {
        if a == to && k == kitty_id {
            assert(pre.owned_list(sender).contains(k));
        } else if a == to {
            assert(lt.contains(k));
        }
    }
    assert forall|k: u32| #[trigger] post.kitties_map().contains_key(k) implies exists|b: u64| #[trigger] post.owned_list(b).contains(k) by {
        if k == kitty_id {
            assert(post.owned_list(to).contains(k));
        } else {
            let a = choose|a: u64| #[trigger] pre.owned_list(a).contains(k);
            if a == sender {
                assert(rest.contains(k));
                assert(post.owned_list(sender).contains(k));
            } else if a == to {
                assert(post.owned_list(to).contains(k));
            } else {
                assert(post.owned_list(a) == pre.owned_list(a));
                assert(post.owned_list(a).contains(k));
            }
        }
    }
}

impl Module {
    /// The kitties, by id.
    pub closed spec fn kitties_map(&self) -> Map<u32, Kitty> {
        self.kitties@
    }

    /// The kitty counter.
    pub closed spec fn count(&self) -> u32 {
        self.kitties_count
    }

    /// The linked-list storage of the kitties that each account owns.
    pub closed spec fn owned(&self) -> Map<(u64, Option<u32>), LinkedItem> {
        self.owned_kitties@
    }

    /// The kitties of `account`, in the order they came to it.
    pub open spec fn owned_list(&self, account: u64) -> Seq<u32> {
        list_of(self.owned(), account)
    }

    /// The invariant: the kitties are exactly the ids below the counter; each
    /// account's storage holds a list; no kitty is in two lists; every listed
    /// kitty exists, and every kitty is listed.
    pub open spec fn inv(&self) -> bool {
        &&& forall|k: u32| #[trigger] self.kitties_map().contains_key(k) == (k < self.count())
        &&& forall|a: u64| #[trigger] stores_list(self.owned(), a, self.owned_list(a))
        &&& forall|a: u64, b: u64, k: u32| #[trigger] self.owned_list(a).contains(k) && #[trigger] self.owned_list(b).contains(k) ==> a == b
        &&& forall|a: u64, k: u32| #[trigger] self.owned_list(a).contains(k) ==> self.kitties_map().contains_key(k)
        &&& forall|k: u32| #[trigger] self.kitties_map().contains_key(k) ==> exists|a: u64| #[trigger] self.owned_list(a).contains(k)
    }

    /// The module at genesis: no kitties.
    pub fn new() -> (r: Self)
        ensures
            r.kitties_map() == Map::<u32, Kitty>::empty(),
            r.count() == 0,
            r.owned() == Map::<(u64, Option<u32>), LinkedItem>::empty(),
            r.inv(),
    {
        let r = Module { kitties: BTreeMap::new(), kitties_count: 0, owned_kitties: OwnedKitties::new() };
        proof {
            assert forall|a: u64| #[trigger] stores_list(r.owned(), a, r.owned_list(a)) by {
                crate::owned_kitties::lemma_empty_stores_empty(a);
            }
            assert forall|a: u64, k: u32| !(#[trigger] r.owned_list(a).contains(k)) by {
                crate::owned_kitties::lemma_empty_stores_empty(a);
            }
        }
        r
    }

    /// The kitty with id `kitty_id`, if it exists.
    pub fn kitties(&self, kitty_id: u32) -> (r: Option<Kitty>)
        ensures
            r == self.kitties_map().get(kitty_id),
    {
        match self.kitties.get(&kitty_id) {
            Some(kitty) => Some(*kitty),
            None => None,
        }
    }

    /// The number of kitties created so far.
    pub fn kitties_count(&self) -> (r: u32)
        ensures
            r == self.count(),
    {
        self.kitties_count
    }

    /// The linked-list storage of owned kitties.
    pub fn owned_kitties(&self) -> (r: &OwnedKitties)
        ensures
            r@ == self.owned(),
    {
        &self.owned_kitties
    }

    /// The id the next kitty gets: the counter, unless it is at its largest
    /// value.
    pub fn next_kitty_id(&self) -> (r: Result<u32, KittyError>)
        ensures
            r == (if self.count() == u32::MAX {
                Err::<u32, KittyError>(KittyError::KittiesCountOverflow)
            } else {
                Ok::<u32, KittyError>(self.count())
            }),
    {
        let kitty_id: u32 = self.kitties_count;
        if kitty_id == u32::MAX {
            return Err(KittyError::KittiesCountOverflow);
        }
        Ok(kitty_id)
    }

    /// Puts `kitty_id` at the end of `owner`'s list of kitties.
    pub fn insert_owned_kitty(&mut self, owner: &u64, kitty_id: u32)
        ensures
            final(self).owned() == appended(old(self).owned(), *owner, kitty_id),
            final(self).kitties_map() == old(self).kitties_map(),
            final(self).count() == old(self).count(),
    {
        self.owned_kitties.append(owner, kitty_id);
    }

    /// Stores `kitty` under `kitty_id`, sets the counter to `kitty_id + 1`
    /// and puts the kitty at the end of `owner`'s list.
    pub fn insert_kitty(&mut self, owner: &u64, kitty_id: u32, kitty: Kitty)
        requires
            kitty_id < u32::MAX,
        ensures
            final(self).kitties_map() == old(self).kitties_map().insert(kitty_id, kitty),
            final(self).count() == kitty_id + 1,
            final(self).owned() == appended(old(self).owned(), *owner, kitty_id),
            old(self).inv() && kitty_id == old(self).count() ==> {
                &&& final(self).inv()
                &&& final(self).owned_list(*owner) == old(self).owned_list(*owner).push(kitty_id)
            },
    {
        let ghost pre = *self;
        let _ = self.kitties.insert(kitty_id, kitty);
        self.kitties_count = kitty_id + 1;
        self.insert_owned_kitty(owner, kitty_id);
        proof {
            if pre.inv() && kitty_id == pre.count() {
                lemma_insert_keeps_inv(pre, *self, *owner, kitty_id, kitty);
            }
        }
    }

    /// Creates a kitty for the signer under the next id, with the random
    /// value of the call as its DNA.
    pub fn create(&mut self, origin: Origin, context: &BlockContext) -> (r: Result<(), KittyError>)
        ensures
            signer(origin) is Err ==> r == Err::<(), KittyError>(KittyError::BadOrigin) && *final(self) == *old(self),
            signer(origin) is Ok && old(self).count() == u32::MAX
                ==> r == Err::<(), KittyError>(KittyError::KittiesCountOverflow) && *final(self) == *old(self),
            signer(origin) is Ok && old(self).count() != u32::MAX ==> {
                let sender = signer(origin)->Ok_0;
                let id = old(self).count();
                &&& r == Ok::<(), KittyError>(())
                &&& final(self).kitties_map() == old(self).kitties_map().insert(id, final(self).kitties_map()[id])
                &&& final(self).kitties_map()[id].0@ == blake2_128_digest(
                    payload_bytes(context.random_seed@, sender, context.extrinsic_index, context.block_number),
                )
                &&& final(self).count() == id + 1
                &&& final(self).owned() == appended(old(self).owned(), sender, id)
            },
            old(self).inv() ==> final(self).inv(),
            old(self).inv() && r is Ok ==> final(self).owned_list(signer(origin)->Ok_0)
                == old(self).owned_list(signer(origin)->Ok_0).push(old(self).count()),
    {
        let sender = match ensure_signed(origin) {
            Ok(who) => who,
            Err(e) => return Err(e),
        };
        let kitty_id = match self.next_kitty_id() {
            Ok(id) => id,
            Err(e) => return Err(e),
        };
        let dna = random_value(&sender, context);
        let kitty = Kitty(dna);
        self.insert_kitty(&sender, kitty_id, kitty);
        Ok(())
    }

    /// Breeds `kitty_id_1` with `kitty_id_2` for `sender`: the child's DNA
    /// combines the parents' DNA byte by byte under `selector`.
    pub fn do_breed_with_selector(&mut self, sender: &u64, kitty_id_1: u32, kitty_id_2: u32, selector: [u8; 16]) -> (r: Result<(), KittyError>)
        ensures
            breed_outcome(old(self).kitties_map(), old(self).count(), kitty_id_1, kitty_id_2) matches Err(e)
                ==> r == Err::<(), KittyError>(e) && *final(self) == *old(self),
            breed_outcome(old(self).kitties_map(), old(self).count(), kitty_id_1, kitty_id_2) matches Ok(id) ==> {
                &&& r == Ok::<(), KittyError>(())
                &&& final(self).kitties_map() == old(self).kitties_map().insert(id, final(self).kitties_map()[id])
                &&& final(self).kitties_map()[id].0@ == child_dna(
                    old(self).kitties_map()[kitty_id_1].0@,
                    old(self).kitties_map()[kitty_id_2].0@,
                    selector@,
                )
                &&& final(self).count() == id + 1
                &&& final(self).owned() == appended(old(self).owned(), *sender, id)
            },
            old(self).inv() ==> final(self).inv(),
            old(self).inv() && r is Ok ==> final(self).owned_list(*sender) == old(self).owned_list(*sender).push(old(self).count()),
            old(self).kitties_map().contains_key(kitty_id_1) && old(self).kitties_map().contains_key(kitty_id_2)
                && kitty_id_1 != kitty_id_2 && old(self).count() < u32::MAX ==> r == Ok::<(), KittyError>(())
                && final(self).count() == old(self).count() + 1,
    {
        let kitty1 = self.kitties(kitty_id_1);
        let kitty2 = self.kitties(kitty_id_2);

        if kitty1.is_none() {
            return Err(KittyError::InvalidKittyId1);
        }
        if kitty2.is_none() {
            return Err(KittyError::InvalidKittyId2);
        }
        if kitty_id_1 == kitty_id_2 {
            return Err(KittyError::NeedDifferentParent);
        }

        let kitty_id = match self.next_kitty_id() {
            Ok(id) => id,
            Err(e) => return Err(e),
        };

        let kitty1_dna = kitty1.unwrap().0;
        let kitty2_dna = kitty2.unwrap().0;

        let mut new_dna = [0u8; 16];
        let mut i: usize = 0;
        while i < 16
            invariant
                i <= 16,
                forall|j: int| 0 <= j < i ==> #[trigger] new_dna@[j] == crate::dna::spec_combine_dna(
                    kitty1_dna@[j], kitty2_dna@[j], selector@[j]),
            decreases 16 - i,
        {
            new_dna[i] = combine_dna(kitty1_dna[i], kitty2_dna[i], selector[i]);
            i = i + 1;
        }
        assert(new_dna@ =~= child_dna(kitty1_dna@, kitty2_dna@, selector@));
        self.insert_kitty(sender, kitty_id, Kitty(new_dna));
        Ok(())
    }

    /// Breeds `kitty_id_1` with `kitty_id_2` for `sender`, with the random
    /// value of the call as the selector.
    pub fn do_breed(&mut self, sender: &u64, kitty_id_1: u32, kitty_id_2: u32, context: &BlockContext) -> (r: Result<(), KittyError>)
        ensures
            breed_outcome(old(self).kitties_map(), old(self).count(), kitty_id_1, kitty_id_2) matches Err(e)
                ==> r == Err::<(), KittyError>(e) && *final(self) == *old(self),
            breed_outcome(old(self).kitties_map(), old(self).count(), kitty_id_1, kitty_id_2) matches Ok(id) ==> {
                &&& r == Ok::<(), KittyError>(())
                &&& final(self).kitties_map() == old(self).kitties_map().insert(id, final(self).kitties_map()[id])
                &&& final(self).kitties_map()[id].0@ == child_dna(
                    old(self).kitties_map()[kitty_id_1].0@,
                    old(self).kitties_map()[kitty_id_2].0@,
                    blake2_128_digest(
                        payload_bytes(context.random_seed@, *sender, context.extrinsic_index, context.block_number),
                    ),
                )
                &&& final(self).count() == id + 1
                &&& final(self).owned() == appended(old(self).owned(), *sender, id)
            },
            old(self).inv() ==> final(self).inv(),
            old(self).inv() && r is Ok ==> final(self).owned_list(*sender) == old(self).owned_list(*sender).push(old(self).count()),
    {
        let selector = random_value(sender, context);
        self.do_breed_with_selector(sender, kitty_id_1, kitty_id_2, selector)
    }

    /// Breeds two kitties for the signer.
    pub fn breed(&mut self, origin: Origin, kitty_id_1: u32, kitty_id_2: u32, context: &BlockContext) -> (r: Result<(), KittyError>)
        ensures
            signer(origin) is Err ==> r == Err::<(), KittyError>(KittyError::BadOrigin) && *final(self) == *old(self),
            signer(origin) is Ok ==> {
                let sender = signer(origin)->Ok_0;
                match breed_outcome(old(self).kitties_map(), old(self).count(), kitty_id_1, kitty_id_2) {
                    Err(e) => r == Err::<(), KittyError>(e) && *final(self) == *old(self),
                    Ok(id) => {
                        &&& r == Ok::<(), KittyError>(())
                        &&& final(self).kitties_map() == old(self).kitties_map().insert(id, final(self).kitties_map()[id])
                        &&& final(self).kitties_map()[id].0@ == child_dna(
                            old(self).kitties_map()[kitty_id_1].0@,
                            old(self).kitties_map()[kitty_id_2].0@,
                            blake2_128_digest(
                                payload_bytes(context.random_seed@, sender, context.extrinsic_index, context.block_number),
                            ),
                        )
                        &&& final(self).count() == id + 1
                        &&& final(self).owned() == appended(old(self).owned(), sender, id)
                    },
                }
            },
            old(self).inv() ==> final(self).inv(),
            old(self).inv() && r is Ok ==> final(self).owned_list(signer(origin)->Ok_0)
                == old(self).owned_list(signer(origin)->Ok_0).push(old(self).count()),
    {
        let sender = match ensure_signed(origin) {
            Ok(who) => who,
            Err(e) => return Err(e),
        };
        self.do_breed(&sender, kitty_id_1, kitty_id_2, context)
    }

    /// Gives `kitty_id` from `sender` to `to`: refused unless the kitty has a
    /// node in `sender`'s list; then the kitty is appended to `to`'s list
    /// and removed from `sender`'s list, in that order.
    pub fn do_transfer(&mut self, sender: &u64, to: u64, kitty_id: u32) -> (r: Result<(), KittyError>)
        ensures
            !old(self).owned().contains_key((*sender, Some(kitty_id)))
                ==> r == Err::<(), KittyError>(KittyError::NotOwner) && *final(self) == *old(self),
            old(self).owned().contains_key((*sender, Some(kitty_id))) ==> {
                &&& r == Ok::<(), KittyError>(())
                &&& final(self).owned() == removed(appended(old(self).owned(), to, kitty_id), *sender, kitty_id)
                &&& final(self).kitties_map() == old(self).kitties_map()
                &&& final(self).count() == old(self).count()
            },
            forall|s: Seq<u32>, t: Seq<u32>|
                #![trigger stores_list(old(self).owned(), *sender, s), stores_list(old(self).owned(), to, t)]
                to != *sender && stores_list(old(self).owned(), *sender, s) && s.contains(kitty_id)
                && stores_list(old(self).owned(), to, t) && !t.contains(kitty_id) ==> {
                    &&& stores_list(final(self).owned(), *sender, s.remove(s.index_of(kitty_id)))
                    &&& stores_list(final(self).owned(), to, t.push(kitty_id))
                },
            old(self).inv() && to != *sender && old(self).owned().contains_key((*sender, Some(kitty_id))) ==> {
                &&& final(self).inv()
                &&& final(self).owned_list(*sender) == old(self).owned_list(*sender).remove(old(self).owned_list(*sender).index_of(kitty_id))
                &&& final(self).owned_list(to) == old(self).owned_list(to).push(kitty_id)
            },
            old(self).inv() && !old(self).owned().contains_key((*sender, Some(kitty_id))) ==> final(self).inv(),
    {
        let ghost m0 = self.owned();
        let ghost pre = *self;
        match self.owned_kitties.get(&(*sender, Some(kitty_id))) {
            None => {
                proof {
                    assert forall|s: Seq<u32>| #[trigger] stores_list(m0, *sender, s) implies !s.contains(kitty_id) by {
                        crate::owned_kitties::lemma_member_has_node(m0, *sender, s, kitty_id);
                    }
                }
                return Err(KittyError::NotOwner);
            },
            Some(_) => {},
        }
        self.owned_kitties.append(&to, kitty_id);
        let ghost m1 = self.owned();
        self.owned_kitties.remove(sender, kitty_id);
        proof {
            assert forall|s: Seq<u32>, t: Seq<u32>|
                #![trigger stores_list(m0, *sender, s), stores_list(m0, to, t)]
                to != *sender && stores_list(m0, *sender, s) && s.contains(kitty_id)
                && stores_list(m0, to, t) && !t.contains(kitty_id)
                implies stores_list(self.owned(), *sender, s.remove(s.index_of(kitty_id)))
                && stores_list(self.owned(), to, t.push(kitty_id)) by {
                crate::owned_kitties::lemma_appended_elsewhere(m0, to, kitty_id);
                crate::owned_kitties::lemma_list_kept_elsewhere(m0, m1, to, *sender, s);
                crate::owned_kitties::lemma_remove_deletes(m1, *sender, s, s.index_of(kitty_id));
                crate::owned_kitties::lemma_append_pushes(m0, to, t, kitty_id);
                crate::owned_kitties::lemma_removed_elsewhere(m1, *sender, kitty_id);
                crate::owned_kitties::lemma_list_kept_elsewhere(m1, self.owned(), *sender, to, t.push(kitty_id));
            }
            if pre.inv() && to != *sender {
                lemma_transfer_keeps_inv(pre, *self, *sender, to, kitty_id);
            }
        }
        Ok(())
    }

    /// Gives the signer's kitty to `to`. Only an unsigned call is refused:
    /// the outcome of the ownership check is not passed on.
    pub fn transfer(&mut self, origin: Origin, to: u64, kitty_id: u32) -> (r: Result<(), KittyError>)
        ensures
            signer(origin) is Err ==> r == Err::<(), KittyError>(KittyError::BadOrigin) && *final(self) == *old(self),
            signer(origin) is Ok ==> {
                let sender = signer(origin)->Ok_0;
                &&& r == Ok::<(), KittyError>(())
                &&& !old(self).owned().contains_key((sender, Some(kitty_id))) ==> *final(self) == *old(self)
                &&& old(self).owned().contains_key((sender, Some(kitty_id))) ==> {
                    &&& final(self).owned() == removed(appended(old(self).owned(), to, kitty_id), sender, kitty_id)
                    &&& final(self).kitties_map() == old(self).kitties_map()
                    &&& final(self).count() == old(self).count()
                }
            },
            old(self).inv() && signer(origin) is Ok ==> {
                let sender = signer(origin)->Ok_0;
                &&& to != sender && old(self).owned().contains_key((sender, Some(kitty_id))) ==> {
                    &&& final(self).inv()
                    &&& final(self).owned_list(sender)
                        == old(self).owned_list(sender).remove(old(self).owned_list(sender).index_of(kitty_id))
                    &&& final(self).owned_list(to) == old(self).owned_list(to).push(kitty_id)
                }
                &&& !old(self).owned().contains_key((sender, Some(kitty_id))) ==> final(self).inv()
            },
            old(self).inv() && signer(origin) is Err ==> final(self).inv(),
    {
        let sender = match ensure_signed(origin) {
            Ok(who) => who,
            Err(e) => return Err(e),
        };
        let _ = self.do_transfer(&sender, to, kitty_id);
        Ok(())
    }
}

} // verus!
