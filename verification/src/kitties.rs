use std::collections::BTreeMap;
use vstd::prelude::*;

use crate::dna::{child_dna, combine_dna};
use crate::randomness::{blake2_128_digest, payload_bytes, random_value, BlockContext};
use crate::owned_kitties::{appended, lemma_list_of, lemma_empty_stores_empty, lemma_list_kept_elsewhere, list_of, removed, stores_list, LinkedItem, OwnedKitties};

verus! {

/// A kitty: its 128 bits of DNA.
#[derive(Clone, Copy, Debug, PartialEq, Eq)]
pub struct Kitty(pub [u8; 16]);

impl Default for Kitty {
    /// The kitty whose DNA bits are all 0.
    fn default() -> (r: Self)
        ensures
            r.0@ == Seq::new(16, |i: int| 0u8),
    {
        let r = Kitty([0u8; 16]);
        assert(r.0@ =~= Seq::new(16, |i: int| 0u8));
        r
    }
}

/// Who a call comes from.
#[derive(Clone, Copy, Debug, PartialEq, Eq)]
pub enum Origin {
    /// Signed by an account.
    Signed(u64),
    /// The root (sudo) origin.
    Root,
    /// An unsigned call.
    Unsigned,
}

/// Why a call was refused.
#[derive(Clone, Copy, Debug, PartialEq, Eq)]
pub enum KittyError {
    /// The call is not signed by an account.
    BadOrigin,
    /// The kitty counter is at its largest value: no kitty can be added.
    KittiesCountOverflow,
    /// The first parent does not exist.
    InvalidKittyId1,
    /// The second parent does not exist.
    InvalidKittyId2,
    /// Both parents are the same kitty.
    NeedDifferentParent,
    /// The kitty does not exist.
    KittyNotExist,
    /// The kitty has no owner.
    NoOwner,
    /// The caller does not own the kitty.
    NotOwner,
    /// The kitty has no price.
    NotForSale,
    /// The offered price is below the asked price.
    PriceTooLow,
    /// The payment to the seller did not go through.
    PaymentFailed,
    /// The sender's kitty count cannot grow by one.
    TransferOverflow,
    /// The receiver's kitty count cannot shrink by one.
    TransferUnderflow,
}

/// What a successful call reports.
#[derive(Clone, Copy, Debug, PartialEq, Eq)]
pub enum Event {
    /// A kitty is created. (owner, kitty_id)
    Created(u64, u32),
    /// A kitty is transferred. (from, to, kitty_id)
    Transferred(u64, u64, u32),
    /// A kitty is available for sale. (owner, kitty_id, price)
    Ask(u64, u32, Option<u64>),
    /// A kitty is sold. (from, to, kitty_id, price)
    Sold(u64, u64, u32, u64),
}

/// The payment that a purchase needs: `amount` from the buyer `from` to the
/// seller `to`.
#[derive(Clone, Copy, Debug, PartialEq, Eq)]
pub struct Payment {
    pub from: u64,
    pub to: u64,
    pub amount: u64,
}

/// The account that signed `origin`, or `BadOrigin`.
pub open spec fn signer(origin: Origin) -> Result<u64, KittyError> {
    match origin {
        Origin::Signed(who) => Ok(who),
        _ => Err(KittyError::BadOrigin),
    }
}

/// The account that signed the call; refuses a call that is not signed.
pub fn ensure_signed(origin: Origin) -> (r: Result<u64, KittyError>)
    ensures
        r == signer(origin),
{
    match origin {
        Origin::Signed(who) => Ok(who),
        _ => Err(KittyError::BadOrigin),
    }
}

/// The storage of the kitties module.
pub struct Module {
    kitties: BTreeMap<u32, Kitty>,
    kitty_owner: BTreeMap<u32, u64>,
    kitties_count: u32,
    owned_kitties: OwnedKitties,
    kitty_prices: BTreeMap<u32, u64>,
}

/// `post` is `pre` with the kitty `kitty` stored under `kitty_id`, owned by
/// `owner` and put at the end of `owner`'s list, and the counter set to
/// `kitty_id + 1`.
pub open spec fn inserted(pre: Module, post: Module, owner: u64, kitty_id: u32, kitty: Kitty) -> bool {
    &&& post.kitties_map() == pre.kitties_map().insert(kitty_id, kitty)
    &&& post.owners() == pre.owners().insert(kitty_id, owner)
    &&& post.count() == kitty_id + 1
    &&& post.prices() == pre.prices()
    &&& post.owned() == appended(pre.owned(), owner, kitty_id)
}

/// `post` is `pre` with the kitty `kitty_id` taken out of `from`'s list, put
/// at the end of `to`'s list and owned by `to`.
pub open spec fn transferred(pre: Module, post: Module, from: u64, to: u64, kitty_id: u32) -> bool {
    &&& post.kitties_map() == pre.kitties_map()
    &&& post.owners() == pre.owners().insert(kitty_id, to)
    &&& post.count() == pre.count()
    &&& post.prices() == pre.prices()
    &&& post.owned() == appended(removed(pre.owned(), from, kitty_id), to, kitty_id)
}

/// All the module's storage is the same in `pre` and `post`.
pub open spec fn same_storage(pre: Module, post: Module) -> bool {
    &&& post.kitties_map() == pre.kitties_map()
    &&& post.owners() == pre.owners()
    &&& post.count() == pre.count()
    &&& post.prices() == pre.prices()
    &&& post.owned() == pre.owned()
}

/// In a list without duplicates, what is left after removing position `j`
/// is everything but the kitty that was there.
pub proof fn lemma_remove_contains(s: Seq<u32>, j: int, k: u32)
    requires
        s.no_duplicates(),
        0 <= j < s.len(),
    ensures
        s.remove(j).contains(k) == (s.contains(k) && k != s[j]),
        s.remove(j).no_duplicates(),
{
    s.remove_ensures(j);
    let t = s.remove(j);
    if s.contains(k) && k != s[j] {
        let i = choose|i: int| 0 <= i < s.len() && s[i] == k;
        if i < j {
            assert(t[i] == k);
        } else {
            assert(t[i - 1] == k);
        }
    }
    if t.contains(k) {
        let i = choose|i: int| 0 <= i < t.len() && t[i] == k;
        if i < j {
            assert(s[i] == k);
        } else {
            assert(s[i + 1] == k);
        }
    }
    assert forall|a: int, b: int| 0 <= a < t.len() && 0 <= b < t.len() && a != b implies t[a] != t[b] by {
        let a2 = if a < j { a } else { a + 1 };
        let b2 = if b < j { b } else { b + 1 };
        assert(t[a] == s[a2]);
        assert(t[b] == s[b2]);
    }
}

/// Inserting the kitty with the next id keeps the invariant, puts the kitty
/// at the end of its owner's list and leaves the other lists alone.
pub proof fn lemma_insert_keeps_inv(pre: Module, post: Module, owner: u64, kitty_id: u32, kitty: Kitty)
    requires
        pre.inv(),
        kitty_id == pre.count(),
        kitty_id < u32::MAX,
        inserted(pre, post, owner, kitty_id, kitty),
    ensures
        post.inv(),
        post.owned_list(owner) == pre.owned_list(owner).push(kitty_id),
        forall|b: u64| b != owner ==> #[trigger] post.owned_list(b) == pre.owned_list(b),
{
    assert(!pre.kitties_map().contains_key(kitty_id));
    assert(!pre.owners().contains_key(kitty_id));
    assert forall|a: u64| !(#[trigger] pre.owned_list(a).contains(kitty_id)) by {}
    let l = pre.owned_list(owner);
    assert(stores_list(pre.owned(), owner, l));
    crate::owned_kitties::lemma_append_pushes(pre.owned(), owner, l, kitty_id);
    lemma_list_of(post.owned(), owner, l.push(kitty_id));
    crate::owned_kitties::lemma_appended_elsewhere(pre.owned(), owner, kitty_id);
    assert forall|b: u64| b != owner implies #[trigger] post.owned_list(b) == pre.owned_list(b) by {
        assert(stores_list(pre.owned(), b, pre.owned_list(b)));
        lemma_list_kept_elsewhere(pre.owned(), post.owned(), owner, b, pre.owned_list(b));
        lemma_list_of(post.owned(), b, pre.owned_list(b));
    }
    assert forall|a: u64| #[trigger] stores_list(post.owned(), a, post.owned_list(a)) by {
        if a != owner {
            assert(stores_list(pre.owned(), a, pre.owned_list(a)));
            lemma_list_kept_elsewhere(pre.owned(), post.owned(), owner, a, pre.owned_list(a));
            lemma_list_of(post.owned(), a, pre.owned_list(a));
        } else {
            lemma_list_of(post.owned(), owner, l.push(kitty_id));
        }
    }
    assert forall|a: u64, k: u32| #[trigger] post.owned_list(a).contains(k)
        implies post.owners().contains_key(k) && post.owners()[k] == a by {
        if a == owner {
            if k != kitty_id {
                assert(l.push(kitty_id).contains(k));
                let i = choose|i: int| 0 <= i < l.push(kitty_id).len() && l.push(kitty_id)[i] == k;
                assert(l[i] == k);
                assert(l.contains(k));
            }
        } else {
            assert(post.owned_list(a) == pre.owned_list(a));
        }
    }
    assert forall|k: u32| #[trigger] post.owners().contains_key(k)
        implies post.owned_list(post.owners()[k]).contains(k) by {
        if k == kitty_id {
            assert(l.push(kitty_id)[l.len() as int] == kitty_id);
        } else {
            let a = pre.owners()[k];
            assert(pre.owned_list(a).contains(k));
            if a == owner {
                let i = choose|i: int| 0 <= i < l.len() && l[i] == k;
                assert(l.push(kitty_id)[i] == k);
            } else {
                assert(post.owned_list(a) == pre.owned_list(a));
            }
        }
    }
}

/// Moving a kitty from its owner `from` to `to` keeps the invariant: the
/// kitty leaves `from`'s list and goes to the end of `to`'s list, and the
/// other lists are left alone.
pub proof fn lemma_transfer_keeps_inv(pre: Module, post: Module, from: u64, to: u64, kitty_id: u32)
    requires
        pre.inv(),
        pre.owners().contains_key(kitty_id),
        pre.owners()[kitty_id] == from,
        transferred(pre, post, from, to, kitty_id),
    ensures
        post.inv(),
        from != to ==> post.owned_list(from) == pre.owned_list(from).remove(pre.owned_list(from).index_of(kitty_id)),
        post.owned_list(to) == (if from == to {
            pre.owned_list(from).remove(pre.owned_list(from).index_of(kitty_id))
        } else {
            pre.owned_list(to)
        }).push(kitty_id),
        forall|b: u64| b != from && b != to ==> #[trigger] post.owned_list(b) == pre.owned_list(b),
{
    let lf = pre.owned_list(from);
    assert(stores_list(pre.owned(), from, lf));
    assert(lf.contains(kitty_id));
    let j = lf.index_of(kitty_id);
    let rest = lf.remove(j);
    crate::owned_kitties::lemma_stored_list_distinct(pre.owned(), from, lf);
    let m1 = removed(pre.owned(), from, kitty_id);
    crate::owned_kitties::lemma_remove_deletes(pre.owned(), from, lf, j);
    crate::owned_kitties::lemma_removed_elsewhere(pre.owned(), from, kitty_id);
    assert forall|k: u32| #[trigger] rest.contains(k) == (lf.contains(k) && k != kitty_id) by {
        lemma_remove_contains(lf, j, k);
    }
    let lt = if from == to { rest } else { pre.owned_list(to) };
    assert(stores_list(m1, to, lt)) by {
        if from != to {
            assert(stores_list(pre.owned(), to, pre.owned_list(to)));
            lemma_list_kept_elsewhere(pre.owned(), m1, from, to, pre.owned_list(to));
        }
    }
    assert(!lt.contains(kitty_id)) by {
        if from != to {
            if pre.owned_list(to).contains(kitty_id) {
                assert(pre.owners()[kitty_id] == to);
            }
        }
    }
    crate::owned_kitties::lemma_append_pushes(m1, to, lt, kitty_id);
    crate::owned_kitties::lemma_appended_elsewhere(m1, to, kitty_id);
    lemma_list_of(post.owned(), to, lt.push(kitty_id));
    if from != to {
        lemma_list_kept_elsewhere(m1, post.owned(), to, from, rest);
        lemma_list_of(post.owned(), from, rest);
    }
    assert forall|b: u64| b != from && b != to implies #[trigger] post.owned_list(b) == pre.owned_list(b) by {
        assert(stores_list(pre.owned(), b, pre.owned_list(b)));
        lemma_list_kept_elsewhere(pre.owned(), m1, from, b, pre.owned_list(b));
        lemma_list_kept_elsewhere(m1, post.owned(), to, b, pre.owned_list(b));
        lemma_list_of(post.owned(), b, pre.owned_list(b));
    }
    assert forall|a: u64| #[trigger] stores_list(post.owned(), a, post.owned_list(a)) by {
        if a != from && a != to {
            assert(stores_list(pre.owned(), a, pre.owned_list(a)));
            lemma_list_kept_elsewhere(pre.owned(), m1, from, a, pre.owned_list(a));
            lemma_list_kept_elsewhere(m1, post.owned(), to, a, pre.owned_list(a));
            lemma_list_of(post.owned(), a, pre.owned_list(a));
        } else if a == to {
            lemma_list_of(post.owned(), to, lt.push(kitty_id));
        } else {
            lemma_list_kept_elsewhere(m1, post.owned(), to, from, rest);
            lemma_list_of(post.owned(), from, rest);
        }
    }
    assert forall|k: u32| #[trigger] lt.push(kitty_id).contains(k) == (lt.contains(k) || k == kitty_id) by {
        if lt.push(kitty_id).contains(k) && k != kitty_id {
            let i = choose|i: int| 0 <= i < lt.push(kitty_id).len() && lt.push(kitty_id)[i] == k;
            assert(lt[i] == k);
        }
        if lt.contains(k) {
            let i = choose|i: int| 0 <= i < lt.len() && lt[i] == k;
            assert(lt.push(kitty_id)[i] == k);
        }
        if k == kitty_id {
            assert(lt.push(kitty_id)[lt.len() as int] == k);
        }
    }
    assert forall|a: u64, k: u32| #[trigger] post.owned_list(a).contains(k)
        implies post.owners().contains_key(k) && post.owners()[k] == a by {
        if a == to {
            if k != kitty_id {
                assert(lt.contains(k));
                if from != to {
                    assert(pre.owned_list(to).contains(k));
                } else {
                    assert(lf.contains(k));
                }
            }
        } else if a == from {
            assert(rest.contains(k));
        } else {
            assert(pre.owned_list(a).contains(k));
            if k == kitty_id {
                assert(pre.owners()[kitty_id] == a);
            }
        }
    }
    assert forall|k: u32| #[trigger] post.owners().contains_key(k)
        implies post.owned_list(post.owners()[k]).contains(k) by {
        if k == kitty_id {
            assert(lt.push(kitty_id).contains(kitty_id));
        } else {
            let a = pre.owners()[k];
            assert(pre.owned_list(a).contains(k));
            if a == to {
                if from != to {
                    assert(lt.contains(k));
                } else {
                    assert(rest.contains(k));
                }
            } else if a == from {
                assert(rest.contains(k));
            } else {
                assert(post.owned_list(a) == pre.owned_list(a));
            }
        }
    }
}

/// What breeding `kitty_id_1` with `kitty_id_2` gives, given the stored
/// kitties and the counter: the refusal, in the order the checks are made,
/// or the id of the child.
pub open spec fn breed_outcome(kitties: Map<u32, Kitty>, count: u32, kitty_id_1: u32, kitty_id_2: u32) -> Result<u32, KittyError> {
    if !kitties.contains_key(kitty_id_1) {
        Err(KittyError::InvalidKittyId1)
    } else if !kitties.contains_key(kitty_id_2) {
        Err(KittyError::InvalidKittyId2)
    } else if kitty_id_1 == kitty_id_2 {
        Err(KittyError::NeedDifferentParent)
    } else if count == u32::MAX {
        Err(KittyError::KittiesCountOverflow)
    } else {
        Ok(count)
    }
}

/// What breeding `kitty_id_1` with `kitty_id_2` gives in `m`.
pub open spec fn breed_check(m: Module, kitty_id_1: u32, kitty_id_2: u32) -> Result<u32, KittyError> {
    breed_outcome(m.kitties_map(), m.count(), kitty_id_1, kitty_id_2)
}

/// What buying `kitty_id` at `price` by `origin` gives in `m`: the refusal,
/// in the order the checks are made, or the payment it needs.
pub open spec fn buy_check(m: Module, origin: Origin, kitty_id: u32, price: u64) -> Result<Payment, KittyError> {
    match signer(origin) {
        Err(e) => Err(e),
        Ok(sender) => if !m.owners().contains_key(kitty_id) {
            Err(KittyError::KittyNotExist)
        } else if !m.prices().contains_key(kitty_id) {
            Err(KittyError::NotForSale)
        } else if price < m.prices()[kitty_id] {
            Err(KittyError::PriceTooLow)
        } else {
            Ok(Payment { from: sender, to: m.owners()[kitty_id], amount: m.prices()[kitty_id] })
        },
    }
}

/// What asking `price` for `kitty_id` by `origin` gives in `m`: the refusal,
/// in the order the checks are made, or the owner who asks.
pub open spec fn ask_check(m: Module, origin: Origin, kitty_id: u32) -> Result<u64, KittyError> {
    match signer(origin) {
        Err(e) => Err(e),
        Ok(sender) => if !m.kitties_map().contains_key(kitty_id) {
            Err(KittyError::KittyNotExist)
        } else if !m.owners().contains_key(kitty_id) {
            Err(KittyError::NoOwner)
        } else if m.owners()[kitty_id] != sender {
            Err(KittyError::NotOwner)
        } else {
            Ok(sender)
        },
    }
}

/// What transferring `kitty_id` by `origin` gives in `m`: the refusal, in
/// the order the checks are made, or the owner who transfers.
pub open spec fn transfer_check(m: Module, origin: Origin, kitty_id: u32) -> Result<u64, KittyError> {
    match signer(origin) {
        Err(e) => Err(e),
        Ok(sender) => if !m.owners().contains_key(kitty_id) {
            Err(KittyError::NoOwner)
        } else if m.owners()[kitty_id] != sender {
            Err(KittyError::NotOwner)
        } else {
            Ok(sender)
        },
    }
}

/// Breeding two existing, different kitties while the counter is below its
/// largest value succeeds with the counter as the child's id, whichever
/// parent is named first; breeding fails whenever a parent is missing or
/// both are the same kitty, whatever the order.
pub proof fn lemma_breed_succeeds_for_distinct_parents(kitties: Map<u32, Kitty>, count: u32, kitty_id_1: u32, kitty_id_2: u32)
    ensures
        kitties.contains_key(kitty_id_1) && kitties.contains_key(kitty_id_2) && kitty_id_1 != kitty_id_2
            && count < u32::MAX ==> {
            &&& breed_outcome(kitties, count, kitty_id_1, kitty_id_2) == Ok::<u32, KittyError>(count)
            &&& breed_outcome(kitties, count, kitty_id_2, kitty_id_1) == Ok::<u32, KittyError>(count)
        },
        !kitties.contains_key(kitty_id_1) || !kitties.contains_key(kitty_id_2) || kitty_id_1 == kitty_id_2
            || count == u32::MAX ==> {
            &&& breed_outcome(kitties, count, kitty_id_1, kitty_id_2) is Err
            &&& breed_outcome(kitties, count, kitty_id_2, kitty_id_1) is Err
        },
{
}

/// The same for the module: breeding two existing different kitties, in
/// either order, succeeds with the counter as the child's id.
pub proof fn lemma_module_breed_succeeds(m: Module, kitty_id_1: u32, kitty_id_2: u32)
    requires
        m.kitties_map().contains_key(kitty_id_1),
        m.kitties_map().contains_key(kitty_id_2),
        kitty_id_1 != kitty_id_2,
        m.count() < u32::MAX,
    ensures
        breed_check(m, kitty_id_1, kitty_id_2) == Ok::<u32, KittyError>(m.count()),
        breed_check(m, kitty_id_2, kitty_id_1) == Ok::<u32, KittyError>(m.count()),
{
}

/// The owner of a kitty may always transfer it: a signed call by the
/// recorded owner passes every check, and only such a call does.
pub proof fn lemma_owner_may_transfer(m: Module, origin: Origin, kitty_id: u32)
    ensures
        transfer_check(m, origin, kitty_id) is Ok <==> (signer(origin) is Ok && m.owners().contains_key(kitty_id)
            && m.owners()[kitty_id] == signer(origin)->Ok_0),
        transfer_check(m, origin, kitty_id) matches Ok(a) ==> signer(origin) == Ok::<u64, KittyError>(a),
{
}

/// The owner of an existing kitty may always set or clear its price, and
/// only the owner may.
pub proof fn lemma_owner_may_ask(m: Module, origin: Origin, kitty_id: u32)
    ensures
        ask_check(m, origin, kitty_id) is Ok <==> (signer(origin) is Ok && m.kitties_map().contains_key(kitty_id)
            && m.owners().contains_key(kitty_id) && m.owners()[kitty_id] == signer(origin)->Ok_0),
        ask_check(m, origin, kitty_id) matches Ok(a) ==> signer(origin) == Ok::<u64, KittyError>(a),
{
}

/// A signed offer at or above the asked price of an owned kitty that is
/// for sale is accepted, with the asked price paid by the buyer to the
/// owner; an offer below the asked price, for a kitty not for sale, or for a
/// kitty without an owner, is refused.
pub proof fn lemma_offer_at_asked_price_accepted(m: Module, origin: Origin, kitty_id: u32, price: u64)
    ensures
        buy_check(m, origin, kitty_id, price) is Ok <==> (signer(origin) is Ok && m.owners().contains_key(kitty_id)
            && m.prices().contains_key(kitty_id) && price >= m.prices()[kitty_id]),
        buy_check(m, origin, kitty_id, price) matches Ok(p) ==> {
            &&& signer(origin) == Ok::<u64, KittyError>(p.from)
            &&& p.to == m.owners()[kitty_id]
            &&& p.amount == m.prices()[kitty_id]
            &&& p.amount <= price
        },
{
}

/// Changing only the prices keeps the invariant, as long as only existing
/// kitties have a price.
proof fn lemma_prices_keep_inv(pre: Module, post: Module)
    requires
        pre.inv(),
        post.kitties_map() == pre.kitties_map(),
        post.owners() == pre.owners(),
        post.count() == pre.count(),
        post.owned() == pre.owned(),
        forall|k: u32| #[trigger] post.prices().contains_key(k) ==> post.kitties_map().contains_key(k),
    ensures
        post.inv(),
{
    assert forall|a: u64| #[trigger] stores_list(post.owned(), a, post.owned_list(a)) by {
        assert(stores_list(pre.owned(), a, pre.owned_list(a)));
    }
    assert forall|a: u64, k: u32| #[trigger] post.owned_list(a).contains(k)
        implies post.owners().contains_key(k) && post.owners()[k] == a by {
        assert(pre.owned_list(a).contains(k));
    }
    assert forall|k: u32| #[trigger] post.owners().contains_key(k)
        implies post.owned_list(post.owners()[k]).contains(k) by {
        assert(pre.owners().contains_key(k));
    }
}

/// The counter is the number of kitties: the kitties are those whose ids are
/// below the counter, so the next id is always a fresh one.
pub proof fn lemma_kitties_are_ids_below_count(m: Module)
    requires
        m.inv(),
    ensures
        m.kitties_map().dom() == Set::new(|k: u32| k < m.count()),
        !m.kitties_map().contains_key(m.count()),
{
    assert(m.kitties_map().dom() =~= Set::new(|k: u32| k < m.count()));
}

/// A kitty is in the list of one account at most: its owner's.
pub proof fn lemma_one_owner(m: Module, a: u64, b: u64, kitty_id: u32)
    requires
        m.inv(),
        m.owned_list(a).contains(kitty_id),
        m.owned_list(b).contains(kitty_id),
    ensures
        a == b,
        m.owners().get(kitty_id) == Some(a),
{
}

/// Adding a kitty under the next id keeps every existing kitty, with its
/// DNA, and its owner.
pub proof fn lemma_insert_keeps_kitties(pre: Module, post: Module, owner: u64, kitty: Kitty)
    requires
        pre.inv(),
        inserted(pre, post, owner, pre.count(), kitty),
    ensures
        forall|k: u32| #[trigger] pre.kitties_map().contains_key(k) ==> {
            &&& post.kitties_map().contains_key(k)
            &&& post.kitties_map()[k] == pre.kitties_map()[k]
            &&& post.owners()[k] == pre.owners()[k]
        },
{
}

impl Module {
    /// The kitties, by id.
    pub closed spec fn kitties_map(&self) -> Map<u32, Kitty> {
        self.kitties@
    }

    /// The owner of each kitty.
    pub closed spec fn owners(&self) -> Map<u32, u64> {
        self.kitty_owner@
    }

    /// The number of kitties created so far: the id of the next kitty.
    pub closed spec fn count(&self) -> u32 {
        self.kitties_count
    }

    /// The asked price of each kitty for sale.
    pub closed spec fn prices(&self) -> Map<u32, u64> {
        self.kitty_prices@
    }

    /// The linked-list storage of the kitties that each account owns.
    pub closed spec fn owned(&self) -> Map<(u64, Option<u32>), LinkedItem> {
        self.owned_kitties@
    }

    /// The kitties of `account`, in the order they came to it.
    pub open spec fn owned_list(&self, account: u64) -> Seq<u32> {
        list_of(self.owned(), account)
    }

    /// The invariant of the module: the kitties are exactly the ids below the
    /// counter;
    /// exactly the existing kitties have an owner; each account's storage
    /// holds a list, and a kitty is in an account's list exactly when that
    /// account owns it; only existing kitties have a price.
    pub open spec fn inv(&self) -> bool {
        &&& forall|k: u32| #[trigger] self.kitties_map().contains_key(k) == (k < self.count())
        &&& forall|k: u32| #[trigger] self.owners().contains_key(k) == self.kitties_map().contains_key(k)
        &&& forall|a: u64| #[trigger] stores_list(self.owned(), a, self.owned_list(a))
        &&& forall|a: u64, k: u32| #[trigger] self.owned_list(a).contains(k)
            ==> self.owners().contains_key(k) && self.owners()[k] == a
        &&& forall|k: u32| #[trigger] self.owners().contains_key(k)
            ==> self.owned_list(self.owners()[k]).contains(k)
        &&& forall|k: u32| #[trigger] self.prices().contains_key(k) ==> self.kitties_map().contains_key(k)
    }

    /// The module at genesis: no kitties.
    pub fn new() -> (r: Self)
        ensures
            r.kitties_map() == Map::<u32, Kitty>::empty(),
            r.owners() == Map::<u32, u64>::empty(),
            r.count() == 0,
            r.prices() == Map::<u32, u64>::empty(),
            r.owned() == Map::<(u64, Option<u32>), LinkedItem>::empty(),
            r.inv(),
    {
        let r = Module {
            kitties: BTreeMap::new(),
            kitty_owner: BTreeMap::new(),
            kitties_count: 0,
            owned_kitties: OwnedKitties::new(),
            kitty_prices: BTreeMap::new(),
        };
        proof {
            assert forall|a: u64| #[trigger] stores_list(r.owned(), a, r.owned_list(a)) by {
                lemma_empty_stores_empty(a);
            }
            assert forall|a: u64, k: u32| #[trigger] r.owned_list(a).contains(k)
                implies r.owners().contains_key(k) && r.owners()[k] == a by {
                lemma_empty_stores_empty(a);
            }
        }
        r
    }

    /// The kitty with id `kitty_id`, if it exists.
    pub fn kitties(&self, kitty_id: u32) -> (r: Option<Kitty>)
        ensures
            r == self.kitties_map().get(kitty_id),
    {
        match self.kitties.get(&kitty_id) {
            Some(kitty) => Some(*kitty),
            None => None,
        }
    }

    /// The owner of the kitty `kitty_id`, if any.
    pub fn kitty_owner(&self, kitty_id: u32) -> (r: Option<u64>)
        ensures
            r == self.owners().get(kitty_id),
    {
        match self.kitty_owner.get(&kitty_id) {
            Some(owner) => Some(*owner),
            None => None,
        }
    }

    /// The number of kitties created so far.
    pub fn kitties_count(&self) -> (r: u32)
        ensures
            r == self.count(),
    {
        self.kitties_count
    }

    /// The asked price of the kitty `kitty_id`, if it is for sale.
    pub fn kitty_price(&self, kitty_id: u32) -> (r: Option<u64>)
        ensures
            r == self.prices().get(kitty_id),
    {
        match self.kitty_prices.get(&kitty_id) {
            Some(price) => Some(*price),
            None => None,
        }
    }

    /// The linked-list storage of owned kitties.
    pub fn owned_kitties(&self) -> (r: &OwnedKitties)
        ensures
            r@ == self.owned(),
    {
        &self.owned_kitties
    }

    /// The id the next kitty gets: the counter, unless it is at its largest
    /// value.
    pub fn next_kitty_id(&self) -> (r: Result<u32, KittyError>)
        ensures
            r == (if self.count() == u32::MAX {
                Err::<u32, KittyError>(KittyError::KittiesCountOverflow)
            } else {
                Ok::<u32, KittyError>(self.count())
            }),
    {
        let kitty_id: u32 = self.kitties_count;
        if kitty_id == u32::MAX {
            return Err(KittyError::KittiesCountOverflow);
        }
        Ok(kitty_id)
    }
    /// Puts `kitty_id` at the end of `owner`'s list of kitties.
    pub fn insert_owned_kitty(&mut self, owner: &u64, kitty_id: u32)
        ensures
            final(self).owned() == appended(old(self).owned(), *owner, kitty_id),
            final(self).kitties_map() == old(self).kitties_map(),
            final(self).owners() == old(self).owners(),
            final(self).count() == old(self).count(),
            final(self).prices() == old(self).prices(),
    {
        self.owned_kitties.append(owner, kitty_id);
    }

    /// Stores `kitty` under `kitty_id`, owned by `owner`, sets the counter to
    /// `kitty_id + 1` and puts the kitty at the end of `owner`'s list.
    pub fn insert_kitty(&mut self, owner: u64, kitty_id: u32, kitty: Kitty)
        requires
            kitty_id < u32::MAX,
        ensures
            inserted(*old(self), *final(self), owner, kitty_id, kitty),
            old(self).inv() && kitty_id == old(self).count() ==> {
                &&& final(self).inv()
                &&& final(self).owned_list(owner) == old(self).owned_list(owner).push(kitty_id)
                &&& forall|b: u64| b != owner ==> #[trigger] final(self).owned_list(b) == old(self).owned_list(b)
            },
    {
        let ghost pre = *self;
        let _ = self.kitties.insert(kitty_id, kitty);
        let _ = self.kitty_owner.insert(kitty_id, owner);
        self.kitties_count = kitty_id + 1;
        self.insert_owned_kitty(&owner, kitty_id);
        proof {
            if pre.inv() && kitty_id == pre.count() {
                lemma_insert_keeps_inv(pre, *self, owner, kitty_id, kitty);
            }
        }
    }

    /// Moves `kitty_id` from `from`'s list to the end of `to`'s list and
    /// makes `to` its owner.
    pub fn do_transfer(&mut self, from: &u64, to: &u64, kitty_id: u32)
        ensures
            transferred(*old(self), *final(self), *from, *to, kitty_id),
            old(self).inv() && old(self).owners().get(kitty_id) == Some(*from) ==> {
                &&& final(self).inv()
                &&& *from != *to ==> final(self).owned_list(*from)
                    == old(self).owned_list(*from).remove(old(self).owned_list(*from).index_of(kitty_id))
                &&& final(self).owned_list(*to) == (if *from == *to {
                    old(self).owned_list(*from).remove(old(self).owned_list(*from).index_of(kitty_id))
                } else {
                    old(self).owned_list(*to)
                }).push(kitty_id)
                &&& forall|b: u64| b != *from && b != *to ==> #[trigger] final(self).owned_list(b) == old(self).owned_list(b)
            },
    {
        let ghost pre = *self;
        self.owned_kitties.remove(from, kitty_id);
        self.owned_kitties.append(to, kitty_id);
        let _ = self.kitty_owner.insert(kitty_id, *to);
        proof {
            if pre.inv() && pre.owners().get(kitty_id) == Some(*from) {
                lemma_transfer_keeps_inv(pre, *self, *from, *to, kitty_id);
            }
        }
    }
    /// Creates a kitty with DNA `dna` for `sender` under the next id.
    pub fn do_create(&mut self, sender: u64, dna: [u8; 16]) -> (r: Result<u32, KittyError>)
        ensures
            old(self).count() == u32::MAX ==> r == Err::<u32, KittyError>(KittyError::KittiesCountOverflow)
                && same_storage(*old(self), *final(self)),
            old(self).count() != u32::MAX ==> r == Ok::<u32, KittyError>(old(self).count())
                && inserted(*old(self), *final(self), sender, old(self).count(), Kitty(dna)),
            old(self).inv() ==> final(self).inv(),
            old(self).inv() && r is Ok ==> final(self).owned_list(sender) == old(self).owned_list(sender).push(old(self).count()),
    {
        let kitty_id = match self.next_kitty_id() {
            Ok(id) => id,
            Err(e) => return Err(e),
        };
        self.insert_kitty(sender, kitty_id, Kitty(dna));
        Ok(kitty_id)
    }

    /// Creates a kitty for the signer, with the random value of the call as
    /// its DNA.
    pub fn create_kitties(&mut self, origin: Origin, context: &BlockContext) -> (r: Result<Event, KittyError>)
        ensures
            signer(origin) is Err ==> r == Err::<Event, KittyError>(KittyError::BadOrigin)
                && same_storage(*old(self), *final(self)),
            signer(origin) is Ok && old(self).count() == u32::MAX
                ==> r == Err::<Event, KittyError>(KittyError::KittiesCountOverflow)
                && same_storage(*old(self), *final(self)),
            signer(origin) is Ok && old(self).count() != u32::MAX ==> {
                let sender = signer(origin)->Ok_0;
                let id = old(self).count();
                &&& r == Ok::<Event, KittyError>(Event::Created(sender, id))
                &&& inserted(*old(self), *final(self), sender, id, final(self).kitties_map()[id])
                &&& final(self).kitties_map()[id].0@ == blake2_128_digest(
                    payload_bytes(context.random_seed@, sender, context.extrinsic_index, context.block_number),
                )
                &&& old(self).inv() ==> final(self).owned_list(sender) == old(self).owned_list(sender).push(id)
            },
            old(self).inv() ==> final(self).inv(),
    {
        let sender = match ensure_signed(origin) {
            Ok(who) => who,
            Err(e) => return Err(e),
        };
        let dna = random_value(&sender, context);
        let kitty_id = match self.do_create(sender, dna) {
            Ok(id) => id,
            Err(e) => return Err(e),
        };
        Ok(Event::Created(sender, kitty_id))
    }

    /// Breeds `kitty_id_1` with `kitty_id_2` for `sender`: the child's DNA
    /// combines the parents' DNA byte by byte under `selector`.
    pub fn do_breed_with_selector(&mut self, sender: u64, kitty_id_1: u32, kitty_id_2: u32, selector: [u8; 16]) -> (r: Result<u32, KittyError>)
        ensures
            r == breed_check(*old(self), kitty_id_1, kitty_id_2),
            r is Err ==> same_storage(*old(self), *final(self)),
            r matches Ok(id) ==> {
                &&& inserted(*old(self), *final(self), sender, id, final(self).kitties_map()[id])
                &&& final(self).kitties_map()[id].0@ == child_dna(
                    old(self).kitties_map()[kitty_id_1].0@,
                    old(self).kitties_map()[kitty_id_2].0@,
                    selector@,
                )
                &&& old(self).inv() ==> final(self).owned_list(sender) == old(self).owned_list(sender).push(id)
            },
            old(self).inv() ==> final(self).inv(),
            old(self).kitties_map().contains_key(kitty_id_1) && old(self).kitties_map().contains_key(kitty_id_2)
                && kitty_id_1 != kitty_id_2 && old(self).count() < u32::MAX ==> r == Ok::<u32, KittyError>(old(self).count())
                && final(self).count() == old(self).count() + 1
                && final(self).owners()[old(self).count()] == sender,
    {
        let kitty1 = self.kitties(kitty_id_1);
        let kitty2 = self.kitties(kitty_id_2);

        if kitty1.is_none() {
            return Err(KittyError::InvalidKittyId1);
        }
        if kitty2.is_none() {
            return Err(KittyError::InvalidKittyId2);
        }
        if kitty_id_1 == kitty_id_2 {
            return Err(KittyError::NeedDifferentParent);
        }

        let kitty_id = match self.next_kitty_id() {
            Ok(id) => id,
            Err(e) => return Err(e),
        };

        let kitty1_dna = kitty1.unwrap().0;
        let kitty2_dna = kitty2.unwrap().0;

        let mut new_dna = [0u8; 16];
        let mut i: usize = 0;
        while i < 16
            invariant
                i <= 16,
                forall|j: int| 0 <= j < i ==> #[trigger] new_dna@[j] == crate::dna::spec_combine_dna(
                    kitty1_dna@[j], kitty2_dna@[j], selector@[j]),
            decreases 16 - i,
        {
            new_dna[i] = combine_dna(kitty1_dna[i], kitty2_dna[i], selector[i]);
            i = i + 1;
        }
        assert(new_dna@ =~= child_dna(kitty1_dna@, kitty2_dna@, selector@));
        self.insert_kitty(sender, kitty_id, Kitty(new_dna));
        Ok(kitty_id)
    }
    /// Breeds `kitty_id_1` with `kitty_id_2` for `sender`, with the random
    /// value of the call as the selector.
    pub fn do_breed(&mut self, sender: u64, kitty_id_1: u32, kitty_id_2: u32, context: &BlockContext) -> (r: Result<u32, KittyError>)
        ensures
            r == breed_check(*old(self), kitty_id_1, kitty_id_2),
            r is Err ==> same_storage(*old(self), *final(self)),
            r matches Ok(id) ==> {
                &&& inserted(*old(self), *final(self), sender, id, final(self).kitties_map()[id])
                &&& final(self).kitties_map()[id].0@ == child_dna(
                    old(self).kitties_map()[kitty_id_1].0@,
                    old(self).kitties_map()[kitty_id_2].0@,
                    blake2_128_digest(
                        payload_bytes(context.random_seed@, sender, context.extrinsic_index, context.block_number),
                    ),
                )
                &&& old(self).inv() ==> final(self).owned_list(sender) == old(self).owned_list(sender).push(id)
            },
            old(self).inv() ==> final(self).inv(),
            old(self).kitties_map().contains_key(kitty_id_1) && old(self).kitties_map().contains_key(kitty_id_2)
                && kitty_id_1 != kitty_id_2 && old(self).count() < u32::MAX ==> r == Ok::<u32, KittyError>(old(self).count())
                && final(self).count() == old(self).count() + 1
                && final(self).owners()[old(self).count()] == sender,
    {
        let selector = random_value(&sender, context);
        self.do_breed_with_selector(sender, kitty_id_1, kitty_id_2, selector)
    }

    /// Breeds two kitties of any owners for the signer.
    pub fn breed_kitty(&mut self, origin: Origin, kitty_id_1: u32, kitty_id_2: u32, context: &BlockContext) -> (r: Result<Event, KittyError>)
        ensures
            signer(origin) is Err ==> r == Err::<Event, KittyError>(KittyError::BadOrigin)
                && same_storage(*old(self), *final(self)),
            signer(origin) is Ok ==> {
                let sender = signer(origin)->Ok_0;
                match breed_check(*old(self), kitty_id_1, kitty_id_2) {
                    Err(e) => r == Err::<Event, KittyError>(e) && same_storage(*old(self), *final(self)),
                    Ok(id) => {
                        &&& r == Ok::<Event, KittyError>(Event::Created(sender, id))
                        &&& inserted(*old(self), *final(self), sender, id, final(self).kitties_map()[id])
                        &&& final(self).kitties_map()[id].0@ == child_dna(
                            old(self).kitties_map()[kitty_id_1].0@,
                            old(self).kitties_map()[kitty_id_2].0@,
                            blake2_128_digest(
                                payload_bytes(context.random_seed@, sender, context.extrinsic_index, context.block_number),
                            ),
                        )
                        &&& old(self).inv() ==> final(self).owned_list(sender) == old(self).owned_list(sender).push(id)
                    },
                }
            },
            old(self).inv() ==> final(self).inv(),
            signer(origin) is Ok && old(self).kitties_map().contains_key(kitty_id_1) && old(self).kitties_map().contains_key(kitty_id_2)
                && kitty_id_1 != kitty_id_2 && old(self).count() < u32::MAX ==> r == Ok::<Event, KittyError>(Event::Created(signer(origin)->Ok_0, old(self).count()))
                && final(self).count() == old(self).count() + 1
                && final(self).owners()[old(self).count()] == signer(origin)->Ok_0,
    {
        let sender = match ensure_signed(origin) {
            Ok(who) => who,
            Err(e) => return Err(e),
        };
        let new_kitty_id = match self.do_breed(sender, kitty_id_1, kitty_id_2, context) {
            Ok(id) => id,
            Err(e) => return Err(e),
        };
        Ok(Event::Created(sender, new_kitty_id))
    }

    /// Puts the signer's kitty up for sale at `price`, or takes it off sale
    /// for `None`.
    pub fn ask(&mut self, origin: Origin, kitty_id: u32, price: Option<u64>) -> (r: Result<Event, KittyError>)
        ensures
            ask_check(*old(self), origin, kitty_id) matches Err(e) ==> r == Err::<Event, KittyError>(e)
                && same_storage(*old(self), *final(self)),
            ask_check(*old(self), origin, kitty_id) matches Ok(sender) ==> {
                &&& r == Ok::<Event, KittyError>(Event::Ask(sender, kitty_id, price))
                &&& final(self).prices() == match price {
                    Some(p) => old(self).prices().insert(kitty_id, p),
                    None => old(self).prices().remove(kitty_id),
                }
                &&& final(self).kitties_map() == old(self).kitties_map()
                &&& final(self).owners() == old(self).owners()
                &&& final(self).count() == old(self).count()
                &&& final(self).owned() == old(self).owned()
            },
            old(self).inv() ==> final(self).inv(),
            signer(origin) is Ok && old(self).kitties_map().contains_key(kitty_id)
                && old(self).owners().contains_key(kitty_id) && old(self).owners()[kitty_id] == signer(origin)->Ok_0 ==> {
                &&& r == Ok::<Event, KittyError>(Event::Ask(signer(origin)->Ok_0, kitty_id, price))
                &&& final(self).prices().get(kitty_id) == price
            },
    {
        let sender = match ensure_signed(origin) {
            Ok(who) => who,
            Err(e) => return Err(e),
        };
        if !self.kitties.contains_key(&kitty_id) {
            return Err(KittyError::KittyNotExist);
        }
        let owner = match self.kitty_owner(kitty_id) {
            Some(owner) => owner,
            None => return Err(KittyError::NoOwner),
        };
        if owner != sender {
            return Err(KittyError::NotOwner);
        }
        assert(self.kitties_map().contains_key(kitty_id));
        match price {
            Some(p) => {
                let _ = self.kitty_prices.insert(kitty_id, p);
            },
            None => {
                let _ = self.kitty_prices.remove(&kitty_id);
            },
        }
        proof {
            if old(self).inv() {
                assert forall|k: u32| #[trigger] self.prices().contains_key(k) implies self.kitties_map().contains_key(k) by {
                    if k != kitty_id {
                        assert(old(self).prices().contains_key(k));
                    }
                }
                lemma_prices_keep_inv(*old(self), *self);
            }
        }
        Ok(Event::Ask(sender, kitty_id, price))
    }

    /// The payment that buying `kitty_id` at `price` needs: the asked price
    /// from the signer to the owner; refused when the kitty has no owner, is
    /// not for sale, or `price` is below the asked price.
    pub fn prepare_buy(&self, origin: Origin, kitty_id: u32, price: u64) -> (r: Result<Payment, KittyError>)
        ensures
            r == buy_check(*self, origin, kitty_id, price),
            signer(origin) is Ok && self.owners().contains_key(kitty_id) && self.prices().contains_key(kitty_id)
                && price >= self.prices()[kitty_id] ==> r == Ok::<Payment, KittyError>(Payment {
                    from: signer(origin)->Ok_0,
                    to: self.owners()[kitty_id],
                    amount: self.prices()[kitty_id],
                }),
    {
        let sender = match ensure_signed(origin) {
            Ok(who) => who,
            Err(e) => return Err(e),
        };
        let owner = match self.kitty_owner(kitty_id) {
            Some(owner) => owner,
            None => return Err(KittyError::KittyNotExist),
        };
        let kitty_price = match self.kitty_price(kitty_id) {
            Some(p) => p,
            None => return Err(KittyError::NotForSale),
        };
        if price < kitty_price {
            return Err(KittyError::PriceTooLow);
        }
        Ok(Payment { from: sender, to: owner, amount: kitty_price })
    }

    /// Completes a purchase: when the checks of `prepare_buy` pass and the
    /// payment went through (`paid`), the kitty goes off sale and moves from
    /// its owner to the buyer.
    pub fn buy(&mut self, origin: Origin, kitty_id: u32, price: u64, paid: bool) -> (r: Result<Event, KittyError>)
        ensures
            buy_check(*old(self), origin, kitty_id, price) matches Err(e) ==> r == Err::<Event, KittyError>(e)
                && same_storage(*old(self), *final(self)),
            buy_check(*old(self), origin, kitty_id, price) is Ok && !paid
                ==> r == Err::<Event, KittyError>(KittyError::PaymentFailed)
                && same_storage(*old(self), *final(self)),
            buy_check(*old(self), origin, kitty_id, price) matches Ok(p) ==> paid ==> {
                &&& r == Ok::<Event, KittyError>(Event::Sold(p.to, p.from, kitty_id, p.amount))
                &&& final(self).prices() == old(self).prices().remove(kitty_id)
                &&& final(self).kitties_map() == old(self).kitties_map()
                &&& final(self).owners() == old(self).owners().insert(kitty_id, p.from)
                &&& final(self).count() == old(self).count()
                &&& final(self).owned() == appended(removed(old(self).owned(), p.to, kitty_id), p.from, kitty_id)
                &&& old(self).inv() ==> {
                    &&& p.to != p.from ==> final(self).owned_list(p.to)
                        == old(self).owned_list(p.to).remove(old(self).owned_list(p.to).index_of(kitty_id))
                    &&& final(self).owned_list(p.from) == (if p.to == p.from {
                        old(self).owned_list(p.to).remove(old(self).owned_list(p.to).index_of(kitty_id))
                    } else {
                        old(self).owned_list(p.from)
                    }).push(kitty_id)
                }
            },
            old(self).inv() ==> final(self).inv(),
            signer(origin) is Ok && old(self).owners().contains_key(kitty_id) && old(self).prices().contains_key(kitty_id)
                && price >= old(self).prices()[kitty_id] && paid ==> {
                &&& r == Ok::<Event, KittyError>(Event::Sold(old(self).owners()[kitty_id], signer(origin)->Ok_0,
                    kitty_id, old(self).prices()[kitty_id]))
                &&& final(self).owners()[kitty_id] == signer(origin)->Ok_0
                &&& !final(self).prices().contains_key(kitty_id)
            },
    {
        let payment = match self.prepare_buy(origin, kitty_id, price) {
            Ok(p) => p,
            Err(e) => return Err(e),
        };
        if !paid {
            return Err(KittyError::PaymentFailed);
        }
        let ghost pre = *self;
        let _ = self.kitty_prices.remove(&kitty_id);
        let ghost mid = *self;
        proof {
            if pre.inv() {
                lemma_prices_keep_inv(pre, mid);
            }
        }
        self.do_transfer(&payment.to, &payment.from, kitty_id);
        Ok(Event::Sold(payment.to, payment.from, kitty_id, payment.amount))
    }

    /// Gives the signer's kitty to `to`.
    pub fn transfer_kitty(&mut self, origin: Origin, to: u64, kitty_id: u32) -> (r: Result<(), KittyError>)
        ensures
            transfer_check(*old(self), origin, kitty_id) matches Err(e) ==> r == Err::<(), KittyError>(e)
                && same_storage(*old(self), *final(self)),
            transfer_check(*old(self), origin, kitty_id) matches Ok(sender) ==> {
                &&& r == Ok::<(), KittyError>(())
                &&& transferred(*old(self), *final(self), sender, to, kitty_id)
                &&& old(self).inv() ==> {
                    &&& sender != to ==> final(self).owned_list(sender)
                        == old(self).owned_list(sender).remove(old(self).owned_list(sender).index_of(kitty_id))
                    &&& final(self).owned_list(to) == (if sender == to {
                        old(self).owned_list(sender).remove(old(self).owned_list(sender).index_of(kitty_id))
                    } else {
                        old(self).owned_list(to)
                    }).push(kitty_id)
                }
            },
            old(self).inv() ==> final(self).inv(),
            signer(origin) is Ok && old(self).owners().contains_key(kitty_id)
                && old(self).owners()[kitty_id] == signer(origin)->Ok_0 ==> {
                &&& r == Ok::<(), KittyError>(())
                &&& final(self).owners()[kitty_id] == to
            },
    {
        let sender = match ensure_signed(origin) {
            Ok(who) => who,
            Err(e) => return Err(e),
        };
        let owner = match self.kitty_owner(kitty_id) {
            Some(owner) => owner,
            None => return Err(KittyError::NoOwner),
        };
        if owner != sender {
            return Err(KittyError::NotOwner);
        }
        self.do_transfer(&sender, &to, kitty_id);
        Ok(())
    }
}

} // verus!
