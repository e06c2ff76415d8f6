use std::collections::BTreeMap;
use vstd::prelude::*;

verus! {

/// One node of an account's list of kitties. The node stored under the key
/// `None` is the head: its `prev` is the last kitty and its `next` the first.
/// The node of a kitty points at its neighbours, `None` standing for the head.
#[derive(Clone, Copy, Debug, PartialEq, Eq, Structural)]
pub struct LinkedItem {
    pub prev: Option<u32>,
    pub next: Option<u32>,
}

/// The node type of the owned-kitties list.
pub type KittyLinkedItem = LinkedItem;

/// What a storage lookup gives for a key that is absent.
pub open spec fn empty_item() -> LinkedItem {
    LinkedItem { prev: None, next: None }
}

/// The node that `read` returns: the stored one, or `empty_item()`.
pub open spec fn read_item(m: Map<(u64, Option<u32>), LinkedItem>, account: u64, key: Option<u32>) -> LinkedItem {
    if m.contains_key((account, key)) {
        m[(account, key)]
    } else {
        empty_item()
    }
}

/// The storage after `append(account, kitty_id)`: the three writes it makes.
pub open spec fn appended(m: Map<(u64, Option<u32>), LinkedItem>, account: u64, kitty_id: u32) -> Map<(u64, Option<u32>), LinkedItem> {
    let head = read_item(m, account, None);
    let m1 = m.insert((account, None), LinkedItem { prev: Some(kitty_id), next: head.next });
    let prev = read_item(m1, account, head.prev);
    let m2 = m1.insert((account, head.prev), LinkedItem { prev: prev.prev, next: Some(kitty_id) });
    m2.insert((account, Some(kitty_id)), LinkedItem { prev: head.prev, next: None })
}

/// The storage after `remove(account, kitty_id)`: unchanged when the kitty has
/// no node, else its node is taken out and its neighbours are linked.
pub open spec fn removed(m: Map<(u64, Option<u32>), LinkedItem>, account: u64, kitty_id: u32) -> Map<(u64, Option<u32>), LinkedItem> {
    if !m.contains_key((account, Some(kitty_id))) {
        m
    } else {
        let item = m[(account, Some(kitty_id))];
        let m1 = m.remove((account, Some(kitty_id)));
        let prev = read_item(m1, account, item.prev);
        let m2 = m1.insert((account, item.prev), LinkedItem { prev: prev.prev, next: item.next });
        let next = read_item(m2, account, item.next);
        m2.insert((account, item.next), LinkedItem { prev: item.prev, next: next.next })
    }
}

/// The head node that a list `s` has.
pub open spec fn head_of(s: Seq<u32>) -> LinkedItem {
    if s.len() == 0 {
        empty_item()
    } else {
        LinkedItem { prev: Some(s.last()), next: Some(s[0]) }
    }
}

/// The node that the kitty at position `i` of the list `s` has.
pub open spec fn node_at(s: Seq<u32>, i: int) -> LinkedItem {
    LinkedItem {
        prev: if i == 0 { None } else { Some(s[i - 1]) },
        next: if i + 1 == s.len() { None } else { Some(s[i + 1]) },
    }
}

/// The storage holds, for `account`, exactly the list `s` of distinct kitties,
/// in order: the head and one node per kitty, and no other kitty node.
pub closed spec fn stores_list(m: Map<(u64, Option<u32>), LinkedItem>, account: u64, s: Seq<u32>) -> bool {
    &&& s.no_duplicates()
    &&& read_item(m, account, None) == head_of(s)
    &&& forall|i: int| #![trigger s[i]]
        0 <= i < s.len() ==> m.contains_key((account, Some(s[i]))) && m[(account, Some(s[i]))] == node_at(s, i)
    &&& forall|k: u32| #[trigger] m.contains_key((account, Some(k))) ==> s.contains(k)
}

/// What `stores_list` means, for callers outside this module.
pub proof fn lemma_stores_list_meaning(m: Map<(u64, Option<u32>), LinkedItem>, account: u64, s: Seq<u32>)
    ensures
        stores_list(m, account, s) == {
            &&& s.no_duplicates()
            &&& read_item(m, account, None) == head_of(s)
            &&& forall|i: int| #![trigger s[i]]
                0 <= i < s.len() ==> m.contains_key((account, Some(s[i]))) && m[(account, Some(s[i]))] == node_at(s, i)
            &&& forall|k: u32| #[trigger] m.contains_key((account, Some(k))) ==> s.contains(k)
        },
{
}

/// `m2` agrees with `m1` on every key of every account but `account`.
pub open spec fn same_elsewhere(m1: Map<(u64, Option<u32>), LinkedItem>, m2: Map<(u64, Option<u32>), LinkedItem>, account: u64) -> bool {
    forall|b: u64, key: Option<u32>| b != account ==> {
        &&& #[trigger] m1.contains_key((b, key)) == m2.contains_key((b, key))
        &&& m1.contains_key((b, key)) ==> m1[(b, key)] == m2[(b, key)]
    }
}

/// The storage of the linked lists of the kitties that each account owns.
pub struct OwnedKitties {
    storage: BTreeMap<(u64, Option<u32>), LinkedItem>,
}

/// The linked list of values (kitty ids) kept for each key (account).
pub type LinkedList = OwnedKitties;

impl View for OwnedKitties {
    type V = Map<(u64, Option<u32>), LinkedItem>;

    closed spec fn view(&self) -> Map<(u64, Option<u32>), LinkedItem> {
        self.storage@
    }
}

/// A list of one account stays stored when only other accounts' keys change.
pub proof fn lemma_list_kept_elsewhere(m1: Map<(u64, Option<u32>), LinkedItem>, m2: Map<(u64, Option<u32>), LinkedItem>, account: u64, b: u64, s: Seq<u32>)
    requires
        same_elsewhere(m1, m2, account),
        b != account,
        stores_list(m1, b, s),
    ensures
        stores_list(m2, b, s),
{
    assert(m1.contains_key((b, None)) == m2.contains_key((b, None)));
    assert forall|i: int| 0 <= i < s.len() implies m2.contains_key((b, Some(s[i]))) && m2[(b, Some(s[i]))] == node_at(s, i) by {
        assert(m1.contains_key((b, Some(s[i]))) == m2.contains_key((b, Some(s[i]))));
    }
    assert forall|k: u32| #[trigger] m2.contains_key((b, Some(k))) implies s.contains(k) by {
        assert(m1.contains_key((b, Some(k))) == m2.contains_key((b, Some(k))));
    }
}

/// Appending only writes keys of the account appended to.
pub proof fn lemma_appended_elsewhere(m: Map<(u64, Option<u32>), LinkedItem>, account: u64, kitty_id: u32)
    ensures
        same_elsewhere(m, appended(m, account, kitty_id), account),
{
}

/// Removing only writes keys of the account removed from.
pub proof fn lemma_removed_elsewhere(m: Map<(u64, Option<u32>), LinkedItem>, account: u64, kitty_id: u32)
    ensures
        same_elsewhere(m, removed(m, account, kitty_id), account),
{
}

/// Appending a kitty that is not yet in an account's list puts it at the end
/// of that list.
pub proof fn lemma_append_pushes(m: Map<(u64, Option<u32>), LinkedItem>, account: u64, s: Seq<u32>, kitty_id: u32)
    requires
        stores_list(m, account, s),
        !s.contains(kitty_id),
    ensures
        stores_list(appended(m, account, kitty_id), account, s.push(kitty_id)),
{
    let t = s.push(kitty_id);
    let m3 = appended(m, account, kitty_id);
    let n = s.len() as int;
    assert(t.no_duplicates()) by {
        assert forall|i: int, j: int| 0 <= i < t.len() && 0 <= j < t.len() && i != j implies t[i] != t[j] by {
            if i < n && j < n {
            } else if i == n {
                assert(s.contains(s[j]));
            } else {
                assert(s.contains(s[i]));
            }
        }
    }
    if n == 0 {
        assert(read_item(m3, account, None) == head_of(t));
        assert forall|k: u32| #[trigger] m3.contains_key((account, Some(k))) implies t.contains(k) by {
            if k != kitty_id {
                assert(m.contains_key((account, Some(k))));
            } else {
                assert(t[0] == k);
            }
        }
    } else {
        let last = s[n - 1];
        assert(s[n - 1] == s.last());
        assert(m.contains_key((account, Some(last))));
        assert(last != kitty_id) by {
            assert(s.contains(last));
        }
        assert(read_item(m3, account, None) == head_of(t));
        assert forall|i: int| 0 <= i < t.len() implies m3.contains_key((account, Some(t[i]))) && m3[(account, Some(t[i]))] == node_at(t, i) by {
            if i < n - 1 {
                assert(t[i] == s[i]);
                assert(s[i] != last);
                assert(s[i] != kitty_id) by {
                    assert(s.contains(s[i]));
                }
                assert(node_at(t, i) == node_at(s, i));
            } else if i == n - 1 {
                assert(t[i] == last);
            } else {
                assert(t[i] == kitty_id);
            }
        }
        assert forall|k: u32| #[trigger] m3.contains_key((account, Some(k))) implies t.contains(k) by {
            if k != kitty_id && k != last {
                assert(m.contains_key((account, Some(k))));
                let j = choose|j: int| 0 <= j < s.len() && s[j] == k;
                assert(t[j] == k);
            } else if k == kitty_id {
                assert(t[n] == k);
            } else {
                assert(t[n - 1] == k);
            }
        }
    }
}

/// Removing a kitty that is in an account's list takes it out of the list
/// and keeps the order of the others.
pub proof fn lemma_remove_deletes(m: Map<(u64, Option<u32>), LinkedItem>, account: u64, s: Seq<u32>, j: int)
    requires
        stores_list(m, account, s),
        0 <= j < s.len(),
    ensures
        stores_list(removed(m, account, s[j]), account, s.remove(j)),
{
    let k = s[j];
    let t = s.remove(j);
    let n = s.len() as int;
    let m3 = removed(m, account, k);
    s.remove_ensures(j);
    assert(m.contains_key((account, Some(k))));
    let item = m[(account, Some(k))];
    assert(item == node_at(s, j));
    assert(t.no_duplicates()) by {
        assert forall|a: int, b: int| 0 <= a < t.len() && 0 <= b < t.len() && a != b implies t[a] != t[b] by {
            let a2 = if a < j { a } else { a + 1 };
            let b2 = if b < j { b } else { b + 1 };
            assert(t[a] == s[a2]);
            assert(t[b] == s[b2]);
        }
    }
    assert forall|i: int| 0 <= i < n && i != j implies #[trigger] s[i] != k by {}
    if n == 1 {
        assert(read_item(m3, account, None) == head_of(t));
        assert forall|x: u32| #[trigger] m3.contains_key((account, Some(x))) implies t.contains(x) by {
            assert(m.contains_key((account, Some(x))));
            let i = choose|i: int| 0 <= i < s.len() && s[i] == x;
            assert(i == 0);
        }
    } else if j == 0 {
        let second = s[1];
        assert(m.contains_key((account, Some(second))));
        assert(read_item(m3, account, None) == head_of(t)) by {
            assert(t[0] == second);
            assert(t.last() == s.last());
        }
        assert forall|i: int| 0 <= i < t.len() implies m3.contains_key((account, Some(t[i]))) && m3[(account, Some(t[i]))] == node_at(t, i) by {
            assert(t[i] == s[i + 1]);
            if i == 0 {
            } else {
                assert(s[i + 1] != second);
                assert(node_at(t, i) == node_at(s, i + 1));
            }
        }
        assert forall|x: u32| #[trigger] m3.contains_key((account, Some(x))) implies t.contains(x) by {
            assert(m.contains_key((account, Some(x))));
            let i = choose|i: int| 0 <= i < s.len() && s[i] == x;
            assert(i != 0);
            assert(t[i - 1] == x);
        }
    } else if j == n - 1 {
        let before = s[j - 1];
        assert(m.contains_key((account, Some(before))));
        assert(read_item(m3, account, None) == head_of(t)) by {
            assert(t.last() == before);
            assert(t[0] == s[0]);
        }
        assert forall|i: int| 0 <= i < t.len() implies m3.contains_key((account, Some(t[i]))) && m3[(account, Some(t[i]))] == node_at(t, i) by {
            assert(t[i] == s[i]);
            if i == j - 1 {
            } else {
                assert(s[i] != before);
                assert(node_at(t, i) == node_at(s, i));
            }
        }
        assert forall|x: u32| #[trigger] m3.contains_key((account, Some(x))) implies t.contains(x) by {
            assert(m.contains_key((account, Some(x))));
            let i = choose|i: int| 0 <= i < s.len() && s[i] == x;
            assert(i != j);
            assert(t[i] == x);
        }
    } else {
        let before = s[j - 1];
        let after = s[j + 1];
        assert(m.contains_key((account, Some(before))));
        assert(m.contains_key((account, Some(after))));
        assert(before != after);
        assert(read_item(m3, account, None) == head_of(t)) by {
            assert(t.last() == s.last());
            assert(t[0] == s[0]);
        }
        assert forall|i: int| 0 <= i < t.len() implies m3.contains_key((account, Some(t[i]))) && m3[(account, Some(t[i]))] == node_at(t, i) by {
            if i < j - 1 {
                assert(t[i] == s[i]);
                assert(s[i] != before && s[i] != after);
                assert(node_at(t, i) == node_at(s, i));
            } else if i == j - 1 {
                assert(t[i] == before);
            } else if i == j {
                assert(t[i] == after);
            } else {
                assert(t[i] == s[i + 1]);
                assert(s[i + 1] != before && s[i + 1] != after);
                assert(node_at(t, i) == node_at(s, i + 1));
            }
        }
        assert forall|x: u32| #[trigger] m3.contains_key((account, Some(x))) implies t.contains(x) by {
            assert(m.contains_key((account, Some(x))));
            let i = choose|i: int| 0 <= i < s.len() && s[i] == x;
            assert(i != j);
            if i < j {
                assert(t[i] == x);
            } else {
                assert(t[i - 1] == x);
            }
        }
    }
}

/// Removing a kitty that has no node in an account's storage changes nothing.
pub proof fn lemma_remove_absent(m: Map<(u64, Option<u32>), LinkedItem>, account: u64, s: Seq<u32>, kitty_id: u32)
    requires
        stores_list(m, account, s),
        !s.contains(kitty_id),
    ensures
        removed(m, account, kitty_id) == m,
{
}

/// Removing a kitty just appended gives back the list that was there before.
pub proof fn lemma_remove_undoes_append(m: Map<(u64, Option<u32>), LinkedItem>, account: u64, s: Seq<u32>, kitty_id: u32)
    requires
        stores_list(m, account, s),
        !s.contains(kitty_id),
    ensures
        stores_list(removed(appended(m, account, kitty_id), account, kitty_id), account, s),
{
    lemma_append_pushes(m, account, s, kitty_id);
    let t = s.push(kitty_id);
    assert(t[s.len() as int] == kitty_id);
    lemma_remove_deletes(appended(m, account, kitty_id), account, t, s.len() as int);
    assert(t.remove(s.len() as int) =~= s);
}

proof fn lemma_same_prefix(m: Map<(u64, Option<u32>), LinkedItem>, account: u64, s1: Seq<u32>, s2: Seq<u32>, i: int)
    requires
        stores_list(m, account, s1),
        stores_list(m, account, s2),
        s1.len() > 0,
        s2.len() > 0,
        0 <= i < s1.len(),
        i < s2.len(),
    ensures
        s1[i] == s2[i],
        i + 1 == s1.len() <==> i + 1 == s2.len(),
    decreases i,
{
    if i == 0 {
        assert(head_of(s1).next == head_of(s2).next);
    } else {
        lemma_same_prefix(m, account, s1, s2, i - 1);
    }
    assert(m[(account, Some(s1[i]))] == node_at(s1, i));
    assert(m[(account, Some(s2[i]))] == node_at(s2, i));
}

/// The storage of an account determines its list: two lists stored for the
/// same account are equal.
pub proof fn lemma_list_unique(m: Map<(u64, Option<u32>), LinkedItem>, account: u64, s1: Seq<u32>, s2: Seq<u32>)
    requires
        stores_list(m, account, s1),
        stores_list(m, account, s2),
    ensures
        s1 == s2,
{
    if s1.len() == 0 || s2.len() == 0 {
        assert(head_of(s1) == head_of(s2));
        assert(s1.len() == 0 && s2.len() == 0);
        assert(s1 =~= s2);
    } else {
        let n = if s1.len() < s2.len() { s1.len() } else { s2.len() };
        lemma_same_prefix(m, account, s1, s2, n - 1);
        assert(s1.len() == s2.len());
        assert forall|i: int| 0 <= i < s1.len() implies s1[i] == s2[i] by {
            lemma_same_prefix(m, account, s1, s2, i);
        }
        assert(s1 =~= s2);
    }
}

/// A stored list has no kitty twice.
pub proof fn lemma_stored_list_distinct(m: Map<(u64, Option<u32>), LinkedItem>, account: u64, s: Seq<u32>)
    requires
        stores_list(m, account, s),
    ensures
        s.no_duplicates(),
{
}

/// A kitty of a stored list has a node, and a kitty with a node is in the
/// list.
pub proof fn lemma_member_has_node(m: Map<(u64, Option<u32>), LinkedItem>, account: u64, s: Seq<u32>, kitty_id: u32)
    requires
        stores_list(m, account, s),
    ensures
        s.contains(kitty_id) == m.contains_key((account, Some(kitty_id))),
{
    if s.contains(kitty_id) {
        let i = choose|i: int| 0 <= i < s.len() && s[i] == kitty_id;
        assert(m.contains_key((account, Some(s[i]))));
    }
}

/// The list that the storage holds for `account`.
pub open spec fn list_of(m: Map<(u64, Option<u32>), LinkedItem>, account: u64) -> Seq<u32> {
    choose|s: Seq<u32>| stores_list(m, account, s)
}

/// Where the storage holds a list for an account, `list_of` is that list.
pub proof fn lemma_list_of(m: Map<(u64, Option<u32>), LinkedItem>, account: u64, s: Seq<u32>)
    requires
        stores_list(m, account, s),
    ensures
        list_of(m, account) == s,
        stores_list(m, account, list_of(m, account)),
{
    lemma_list_unique(m, account, list_of(m, account), s);
}

/// The empty storage holds the empty list for every account.
pub proof fn lemma_empty_stores_empty(account: u64)
    ensures
        stores_list(Map::<(u64, Option<u32>), LinkedItem>::empty(), account, Seq::<u32>::empty()),
        list_of(Map::<(u64, Option<u32>), LinkedItem>::empty(), account) == Seq::<u32>::empty(),
{
    lemma_list_of(Map::<(u64, Option<u32>), LinkedItem>::empty(), account, Seq::<u32>::empty());
}

impl OwnedKitties {
    /// An empty storage: no account owns a kitty.
    pub fn new() -> (r: Self)
        ensures
            r@ == Map::<(u64, Option<u32>), LinkedItem>::empty(),
    {
        OwnedKitties { storage: BTreeMap::new() }
    }

    /// The node stored under `key`, if any.
    pub fn get(&self, key: &(u64, Option<u32>)) -> (r: Option<LinkedItem>)
        ensures
            r == self@.get(*key),
    {
        match self.storage.get(key) {
            Some(item) => Some(*item),
            None => None,
        }
    }

    fn read_head(&self, account: &u64) -> (r: LinkedItem)
        ensures
            r == read_item(self@, *account, None),
    {
        self.read(account, None)
    }

    fn write_head(&mut self, account: &u64, item: LinkedItem)
        ensures
            final(self)@ == old(self)@.insert((*account, None), item),
    {
        self.write(account, None, item);
    }

    /// The node of `key` in the list of `account`: the head for `None`, and
    /// a node with no neighbours where nothing is stored.
    pub fn read(&self, account: &u64, key: Option<u32>) -> (r: LinkedItem)
        ensures
            r == read_item(self@, *account, key),
    {
        match self.storage.get(&(*account, key)) {
            Some(item) => *item,
            None => LinkedItem { prev: None, next: None },
        }
    }

    fn write(&mut self, account: &u64, key: Option<u32>, item: LinkedItem)
        ensures
            final(self)@ == old(self)@.insert((*account, key), item),
    {
        let _ = self.storage.insert((*account, key), item);
    }

    fn take(&mut self, account: &u64, key: Option<u32>) -> (r: Option<LinkedItem>)
        ensures
            r == old(self)@.get((*account, key)),
            final(self)@ == old(self)@.remove((*account, key)),
    {
        self.storage.remove(&(*account, key))
    }

    /// Adds `kitty_id` at the end of the list of `account`.
    pub fn append(&mut self, account: &u64, kitty_id: u32)
        ensures
            final(self)@ == appended(old(self)@, *account, kitty_id),
            forall|s: Seq<u32>| #[trigger] stores_list(old(self)@, *account, s) && !s.contains(kitty_id)
                ==> stores_list(final(self)@, *account, s.push(kitty_id)),
            same_elsewhere(old(self)@, final(self)@, *account),
    {
        let ghost m0 = self@;
        let head = self.read_head(account);
        let new_head = LinkedItem { prev: Some(kitty_id), next: head.next };
        self.write_head(account, new_head);

        let prev = self.read(account, head.prev);
        let new_prev = LinkedItem { prev: prev.prev, next: Some(kitty_id) };
        self.write(account, head.prev, new_prev);

        let item = LinkedItem { prev: head.prev, next: None };
        self.write(account, Some(kitty_id), item);
        proof {
            assert(self@ == appended(m0, *account, kitty_id));
            assert forall|s: Seq<u32>| #[trigger] stores_list(m0, *account, s) && !s.contains(kitty_id)
                implies stores_list(self@, *account, s.push(kitty_id)) by {
                lemma_append_pushes(m0, *account, s, kitty_id);
            }
            lemma_appended_elsewhere(m0, *account, kitty_id);
        }
    }

    /// Takes `kitty_id` out of the list of `account` and links its
    /// neighbours; does nothing when the kitty has no node there.
    pub fn remove(&mut self, account: &u64, kitty_id: u32)
        ensures
            final(self)@ == removed(old(self)@, *account, kitty_id),
            forall|s: Seq<u32>| #[trigger] stores_list(old(self)@, *account, s) && s.contains(kitty_id)
                ==> stores_list(final(self)@, *account, s.remove(s.index_of(kitty_id))),
            forall|s: Seq<u32>| #[trigger] stores_list(old(self)@, *account, s) && !s.contains(kitty_id)
                ==> final(self)@ == old(self)@,
            same_elsewhere(old(self)@, final(self)@, *account),
    {
        let ghost m0 = self@;
        if let Some(item) = self.take(account, Some(kitty_id)) {
            let prev = self.read(account, item.prev);
            let new_prev = LinkedItem { prev: prev.prev, next: item.next };
            self.write(account, item.prev, new_prev);

            let next = self.read(account, item.next);
            let new_next = LinkedItem { prev: item.prev, next: next.next };
            self.write(account, item.next, new_next);
        }
        proof {
            assert(self@ == removed(m0, *account, kitty_id));
            assert forall|s: Seq<u32>| #[trigger] stores_list(m0, *account, s) && s.contains(kitty_id)
                implies stores_list(self@, *account, s.remove(s.index_of(kitty_id))) by {
                let j = s.index_of(kitty_id);
                lemma_remove_deletes(m0, *account, s, j);
            }
            lemma_removed_elsewhere(m0, *account, kitty_id);
        }
    }
}

} // verus!
