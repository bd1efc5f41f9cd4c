//! Lists in which nothing occurs twice.

use vstd::prelude::*;

verus! {

/// Things that can be told apart by what they hold.
pub trait Same: View + Sized {
    /// Whether both hold the same.
    fn same(&self, other: &Self) -> (r: bool)
        ensures
            r == (self@ == other@),
    ;

    /// A copy that holds the same.
    fn copied(&self) -> (r: Self)
        ensures
            r@ == self@,
    ;
}

impl Same for String {
    fn same(&self, other: &Self) -> (r: bool) {
        *self == *other
    }

    fn copied(&self) -> (r: Self) {
        self.clone()
    }
}

/// What the items hold, in order.
pub open spec fn views<T: View>(items: Seq<T>) -> Seq<T::V> {
    items.map_values(|item: T| item@)
}

/// A list in which nothing occurs twice.
pub struct UniqueList<T: Same> {
    items: Vec<T>,
}

impl<T: Same> View for UniqueList<T> {
    type V = Set<T::V>;

    /// The set of what the items hold.
    open spec fn view(&self) -> Set<T::V> {
        views(self.items()).to_set()
    }
}

impl<T: Same> UniqueList<T> {
    #[verifier::type_invariant]
    spec fn distinct(self) -> bool {
        views(self.items@).no_duplicates()
    }

    /// The items, in the order in which they came.
    pub closed spec fn items(self) -> Seq<T> {
        self.items@
    }

    /// The list without items.
    pub fn new() -> (r: Self)
        ensures
            r@ == Set::<T::V>::empty(),
    {
        let r = UniqueList { items: Vec::new() };
        assert(views(r.items()).to_set() =~= Set::<T::V>::empty());
        r
    }

    /// The items, in the order in which they came. None occurs twice.
    pub fn as_vec(&self) -> (r: &Vec<T>)
        ensures
            r@ == self.items(),
            views(r@).no_duplicates(),
    {
        proof {
            use_type_invariant(self);
        }
        &self.items
    }

    /// Puts `item` at the end of the list, unless it is there already.
    pub fn insert(&mut self, item: T)
        ensures
            final(self)@ == old(self)@.insert(item@),
    {
        proof {
            use_type_invariant(&*self);
        }
        let mut items: Vec<T> = Vec::new();
        std::mem::swap(&mut items, &mut self.items);
        let ghost before = items@;
        let mut i: usize = 0;
        while i < items.len() && !items[i].same(&item)
            invariant
                i <= items@.len(),
                items@ == before,
                forall|j: int| 0 <= j < i ==> (#[trigger] views(before)[j]) != item@,
            decreases items@.len() - i,
        {
            assert(views(before)[i as int] == before[i as int]@);
            i = i + 1;
        }
        let ghost view = item@;
        if i == items.len() {
            items.push(item);
            proof {
                assert(views(items@) =~= views(before).push(view));
                assert(views(items@).to_set() =~= views(before).to_set().insert(view)) by {
                    views(before).lemma_push_to_set_commute(view);
                }
            }
        } else {
            proof {
                assert(views(before)[i as int] == view);
                assert(views(before).to_set() =~= views(before).to_set().insert(view));
            }
        }
        self.items = items;
    }

    /// A copy of the list.
    pub fn copy(&self) -> (r: Self)
        ensures
            views(r.items()) == views(self.items()),
            r@ == self@,
    {
        proof {
            use_type_invariant(self);
        }
        let mut items: Vec<T> = Vec::new();
        let mut i: usize = 0;
        while i < self.items.len()
            invariant
                i <= self.items@.len(),
                items@.len() == i,
                forall|j: int| 0 <= j < i ==> (#[trigger] items@[j])@ == self.items@[j]@,
            decreases self.items@.len() - i,
        {
            items.push(self.items[i].copied());
            i = i + 1;
        }
        assert(views(items@) =~= views(self.items@));
        UniqueList { items }
    }
}

} // verus!
