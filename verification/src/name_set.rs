//! A growing set of names.

use vstd::prelude::*;

verus! {

/// A set of texts that only grows.
pub struct NameSet {
    items: Vec<String>,
}

impl View for NameSet {
    type V = Set<Seq<char>>;

    closed spec fn view(&self) -> Set<Seq<char>> {
        Set::new(|s: Seq<char>| exists|i: int| 0 <= i < self.items@.len() && self.items@[i]@ == s)
    }
}

impl NameSet {
    /// The empty set.
    pub fn new() -> (r: Self)
        ensures
            r@ == Set::<Seq<char>>::empty(),
    {
        let r = NameSet { items: Vec::new() };
        assert(r@ =~= Set::<Seq<char>>::empty());
        r
    }

    /// Whether `name` is in the set.
    pub fn contains(&self, name: &str) -> (r: bool)
        ensures
            r == self@.contains(name@),
    {
        let wanted = name.to_owned();
        let mut i: usize = 0;
        while i < self.items.len()
            invariant
                i <= self.items@.len(),
                wanted@ == name@,
                forall|k: int| 0 <= k < i ==> self.items@[k]@ != name@,
            decreases self.items@.len() - i,
        {
            if self.items[i] == wanted {
                return true;
            }
            i = i + 1;
        }
        false
    }

    /// Adds `name` to the set.
    pub fn insert(&mut self, name: String)
        ensures
            final(self)@ == old(self)@.insert(name@),
    {
        if !self.contains(name.as_str()) {
            let ghost before = self.items@;
            self.items.push(name);
            assert forall|s: Seq<char>| final(self)@.contains(s) == old(self)@.insert(
                name@,
            ).contains(s) by {
                if old(self)@.contains(s) {
                    let i = choose|i: int| 0 <= i < before.len() && before[i]@ == s;
                    assert(self.items@[i]@ == s);
                }
                if s == name@ {
                    assert(self.items@[before.len() as int]@ == s);
                }
            }
            assert(final(self)@ =~= old(self)@.insert(name@));
        } else {
            assert(final(self)@ =~= old(self)@.insert(name@));
        }
    }
}

} // verus!
