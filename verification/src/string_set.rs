//! A set of strings, kept as a list without repeats.

use vstd::prelude::*;

verus! {

/// A set of strings. The strings are held in the order they were added, each
/// at most once.
pub struct StringSet {
    items: Vec<String>,
}

/// The set of the strings in `s`.
pub open spec fn members(s: Seq<Seq<char>>) -> Set<Seq<char>> {
    Set::new(|x: Seq<char>| s.contains(x))
}

impl StringSet {
    /// The strings held, in order.
    pub closed spec fn elements(self) -> Seq<Seq<char>> {
        self.items@.map_values(|s: String| s@)
    }

    #[verifier::type_invariant]
    closed spec fn no_repeats(self) -> bool {
        self.elements().no_duplicates()
    }

    /// The empty set.
    pub fn new() -> (s: StringSet)
        ensures
            s@ == Seq::<Seq<char>>::empty(),
    {
        let s = StringSet { items: Vec::new() };
        assert(s.elements() =~= Seq::<Seq<char>>::empty());
        s
    }

    /// The number of strings held.
    pub fn len(&self) -> (n: usize)
        ensures
            n == self@.len(),
            self@.no_duplicates(),
    {
        proof {
            use_type_invariant(self);
        }
        self.items.len()
    }

    /// The string at position `i`.
    pub fn get(&self, i: usize) -> (s: &String)
        requires
            i < self@.len(),
        ensures
            s@ == self@[i as int],
    {
        &self.items[i]
    }

    /// Whether `x` is held.
    pub fn contains(&self, x: &String) -> (r: bool)
        ensures
            r == self@.contains(x@),
    {
        match self.position(x) {
            Some(_) => true,
            None => false,
        }
    }

    fn position(&self, x: &String) -> (r: Option<usize>)
        ensures
            match r {
                Some(i) => i < self@.len() && self@[i as int] == x@,
                None => !self@.contains(x@),
            },
    {
        let mut i: usize = 0;
        while i < self.items.len()
            invariant
                i <= self.items@.len(),
                self@ == self.items@.map_values(|s: String| s@),
                forall|j: int| 0 <= j < i ==> self@[j] != x@,
            decreases self.items.len() - i,
        {
            if self.items[i] == *x {
                return Some(i);
            }
            i = i + 1;
        }
        None
    }

    /// Adds `x` at the end unless it is already held; says whether it was
    /// added.
    pub fn insert(&mut self, x: String) -> (added: bool)
        ensures
            added == !old(self)@.contains(x@),
            added ==> final(self)@ == old(self)@.push(x@),
            !added ==> final(self)@ == old(self)@,
            members(final(self)@) == members(old(self)@).insert(x@),
            final(self)@.no_duplicates(),
    {
        proof {
            use_type_invariant(&*self);
        }
        if self.contains(&x) {
            assert(members(self@) =~= members(self@).insert(x@));
            false
        } else {
            let ghost v = x@;
            let ghost before = self@;
            let mut items: Vec<String> = Vec::new();
            std::mem::swap(&mut items, &mut self.items);
            assert(items@.map_values(|s: String| s@) == before);
            items.push(x);
            assert(items@.map_values(|s: String| s@) =~= before.push(v));
            assert(items@.map_values(|s: String| s@).no_duplicates()) by {
                let e = items@.map_values(|s: String| s@);
                assert forall|i: int, j: int| 0 <= i < j < e.len() implies e[i] != e[j] by {
                    if j == before.len() {
                        assert(before[i] == e[i]);
                    } else {
                        assert(before[i] == e[i]);
                        assert(before[j] == e[j]);
                    }
                }
            }
            self.items = items;
            assert(members(self@) =~= members(before).insert(v)) by {
                assert forall|y: Seq<char>| #[trigger] members(self@).contains(y) <==> members(
                    before,
                ).insert(v).contains(y) by {
                    if before.contains(y) {
                        let k = choose|k: int| 0 <= k < before.len() && before[k] == y;
                        assert(self@[k] == y);
                    }
                    if y == v {
                        assert(self@[before.len() as int] == y);
                    }
                    if self@.contains(y) {
                        let k = choose|k: int| 0 <= k < self@.len() && self@[k] == y;
                        if k < before.len() {
                            assert(before[k] == y);
                        }
                    }
                }
            }
            true
        }
    }

    /// Removes `x`; says whether it was held. The others keep their order.
    pub fn remove(&mut self, x: &String) -> (removed: bool)
        ensures
            removed == old(self)@.contains(x@),
            members(final(self)@) == members(old(self)@).remove(x@),
            final(self)@.len() == old(self)@.len() - if removed { 1int } else { 0int },
            !removed ==> final(self)@ == old(self)@,
            final(self)@.no_duplicates(),
    {
        proof {
            use_type_invariant(&*self);
        }
        match self.position(x) {
            None => {
                assert(members(self@) =~= members(self@).remove(x@));
                false
            },
            Some(i) => {
                let ghost before = self@;
                let mut items: Vec<String> = Vec::new();
                std::mem::swap(&mut items, &mut self.items);
                assert(items@.map_values(|s: String| s@) == before);
                items.remove(i);
                let ghost after = items@.map_values(|s: String| s@);
                assert(after =~= before.remove(i as int));
                assert(after.no_duplicates()) by {
                    assert forall|a: int, b: int| 0 <= a < b < after.len() implies after[a]
                        != after[b] by {
                        let a0 = if a < i { a } else { a + 1 };
                        let b0 = if b < i { b } else { b + 1 };
                        assert(after[a] == before[a0]);
                        assert(after[b] == before[b0]);
                    }
                }
                self.items = items;
                assert(self@ == after);
                assert(members(after) =~= members(before).remove(x@)) by {
                    assert forall|y: Seq<char>| members(after).contains(y) <==> members(
                        before,
                    ).remove(x@).contains(y) by {
                        if after.contains(y) {
                            let k = choose|k: int| 0 <= k < after.len() && after[k] == y;
                            let k0 = if k < i { k } else { k + 1 };
                            assert(before[k0] == y);
                            assert(k0 != i);
                        }
                        if before.contains(y) && y != x@ {
                            let k = choose|k: int| 0 <= k < before.len() && before[k] == y;
                            assert(k != i);
                            let k1 = if k < i { k } else { k - 1 };
                            assert(after[k1] == y);
                        }
                    }
                }
                true
            },
        }
    }
}

impl View for StringSet {
    type V = Seq<Seq<char>>;

    open spec fn view(&self) -> Seq<Seq<char>> {
        self.elements()
    }
}

} // verus!
