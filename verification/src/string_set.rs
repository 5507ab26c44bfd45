//! A set of strings, kept as a list: what the crawler remembers of the URLs
//! it has seen and of the domains it has an actor for.

use vstd::prelude::*;

verus! {

/// A finite set of strings.
pub struct StringSet {
    items: Vec<String>,
}

impl View for StringSet {
    type V = Set<Seq<char>>;

    closed spec fn view(&self) -> Set<Seq<char>> {
        Set::new(|t: Seq<char>| exists|i: int| 0 <= i < self.items@.len() && #[trigger] self.items@[i]@ == t)
    }
}

impl StringSet {
    /// The empty set.
    pub fn new() -> (res: StringSet)
        ensures
            res@ == Set::<Seq<char>>::empty(),
    {
        let res = StringSet { items: Vec::new() };
        assert(res@ =~= Set::<Seq<char>>::empty());
        res
    }

    /// Whether `s` is in the set.
    pub fn contains(&self, s: &String) -> (res: bool)
        ensures
            res == self@.contains(s@),
    {
        let mut i: usize = 0;
        while i < self.items.len()
            invariant
                i <= self.items@.len(),
                forall|j: int| 0 <= j < i ==> #[trigger] self.items@[j]@ != s@,
            decreases self.items.len() - i,
        {
            if self.items[i] == *s {
                assert(self.items@[i as int]@ == s@);
                return true;
            }
            i = i + 1;
        }
        false
    }

    /// Adds `s`; says whether it was new (`HashSet::insert`).
    pub fn insert(&mut self, s: String) -> (res: bool)
        ensures
            res == !old(self)@.contains(s@),
            final(self)@ == old(self)@.insert(s@),
    {
        if self.contains(&s) {
            assert(self@ =~= self@.insert(s@));
            return false;
        }
        let ghost before = self.items@;
        self.items.push(s);
        assert forall|t: Seq<char>| #[trigger] self@.contains(t) == old(self)@.insert(s@).contains(t) by {
            if old(self)@.contains(t) {
                let i = choose|i: int| 0 <= i < before.len() && #[trigger] before[i]@ == t;
                assert(self.items@[i]@ == t);
            }
            if t == s@ {
                assert(self.items@[before.len() as int]@ == t);
            }
        }
        assert(self@ =~= old(self)@.insert(s@));
        true
    }

    /// Takes `s` out of the set.
    pub fn remove(&mut self, s: &String)
        ensures
            final(self)@ == old(self)@.remove(s@),
    {
        let mut kept: Vec<String> = Vec::new();
        let mut i: usize = 0;
        while i < self.items.len()
            invariant
                i <= self.items@.len(),
                forall|k: int| 0 <= k < kept@.len() ==> #[trigger] kept@[k]@ != s@,
                forall|k: int|
                    0 <= k < kept@.len() ==> exists|j: int|
                        0 <= j < i && #[trigger] self.items@[j]@ == (#[trigger] kept@[k])@,
                forall|j: int|
                    0 <= j < i && #[trigger] self.items@[j]@ != s@ ==> exists|k: int|
                        0 <= k < kept@.len() && #[trigger] kept@[k]@ == self.items@[j]@,
            decreases self.items.len() - i,
        {
            let ghost prev = kept@;
            if !(self.items[i] == *s) {
                let item = self.items[i].clone();
                kept.push(item);
                assert(kept@[kept@.len() - 1]@ == self.items@[i as int]@);
            }
            assert forall|j: int|
                0 <= j < i + 1 && #[trigger] self.items@[j]@ != s@ implies exists|k: int|
                    0 <= k < kept@.len() && #[trigger] kept@[k]@ == self.items@[j]@ by {
                if j < i {
                    let k = choose|k: int| 0 <= k < prev.len() && #[trigger] prev[k]@ == self.items@[j]@;
                    assert(kept@[k] == prev[k]);
                } else {
                    assert(kept@[kept@.len() - 1]@ == self.items@[j]@);
                }
            }
            i = i + 1;
        }
        let ghost old_items = self.items@;
        self.items = kept;
        assert forall|t: Seq<char>| #[trigger] self@.contains(t) == old(self)@.remove(s@).contains(t) by {
            if self@.contains(t) {
                let k = choose|k: int| 0 <= k < self.items@.len() && #[trigger] self.items@[k]@ == t;
                assert(self.items@[k]@ == t);
            }
            if old(self)@.remove(s@).contains(t) {
                let j = choose|j: int| 0 <= j < old_items.len() && #[trigger] old_items[j]@ == t;
                assert(old_items[j]@ != s@);
            }
        }
        assert(self@ =~= old(self)@.remove(s@));
    }
}

} // verus!
