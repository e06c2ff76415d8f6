use vstd::prelude::*;

verus! {

/// An element of the list: `((account, index), kitty_id)`.
pub type ListElem = ((u64, u32), u32);

/// A singly linked list of owned-kitty entries.
pub enum List {
    Cons(ListElem, Box<List>),
    Nil,
}

/// The elements of a list, front first.
pub open spec fn list_elems(l: List) -> Seq<ListElem>
    decreases l,
{
    match l {
        List::Cons(elem, tail) => seq![elem] + list_elems(*tail),
        List::Nil => Seq::empty(),
    }
}

/// `s` without its first element equal to `x` (`s` itself when there is none).
pub open spec fn remove_first(s: Seq<ListElem>, x: ListElem) -> Seq<ListElem>
    decreases s.len(),
{
    if s.len() == 0 {
        s
    } else if s[0] == x {
        s.drop_first()
    } else {
        seq![s[0]] + remove_first(s.drop_first(), x)
    }
}

impl View for List {
    type V = Seq<ListElem>;

    open spec fn view(&self) -> Seq<ListElem> {
        list_elems(*self)
    }
}

impl List {
    /// The empty list.
    pub fn new() -> (r: List)
        ensures
            r@ == Seq::<ListElem>::empty(),
    {
        List::Nil
    }

    /// The list with `elem` in front of `self`.
    pub fn prepend(self, elem: ListElem) -> (r: List)
        ensures
            r@ == seq![elem] + self@,
    {
        List::Cons(elem, Box::new(self))
    }

    /// The number of elements.
    pub fn len(&self) -> (r: u32)
        requires
            self@.len() <= u32::MAX,
        ensures
            r == self@.len(),
        decreases *self,
    {
        match self {
            List::Cons(_, tail) => {
                assert(list_elems(*self) == seq![self->Cons_0] + list_elems(**tail));
                1 + tail.len()
            },
            List::Nil => 0,
        }
    }

    /// Deletes the first element equal to `elem`; the list is unchanged when
    /// there is none.
    pub fn remove(self, elem: ListElem) -> (r: List)
        ensures
            r@ == remove_first(self@, elem),
        decreases self,
    {
        match self {
            List::Cons(e, tail) => {
                proof {
                    assert(list_elems(List::Cons(e, tail)) == seq![e] + list_elems(*tail));
                    assert((seq![e] + list_elems(*tail)).drop_first() =~= list_elems(*tail));
                    assert((seq![e] + list_elems(*tail))[0] == e);
                }
                if e.0.0 == elem.0.0 && e.0.1 == elem.0.1 && e.1 == elem.1 {
                    *tail
                } else {
                    List::Cons(e, Box::new(tail.remove(elem)))
                }
            },
            List::Nil => List::Nil,
        }
    }
}

/// Deleting an element just put in front gives back the list as it was.
pub proof fn lemma_remove_undoes_prepend(l: List, elem: ListElem)
    ensures
        remove_first(seq![elem] + l@, elem) == l@,
{
    assert((seq![elem] + l@)[0] == elem);
    assert((seq![elem] + l@).drop_first() =~= l@);
}

} // verus!
