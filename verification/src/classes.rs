//! The set of class names that a document uses.

use crate::order::{
    ascending, comes_before, inserted, lemma_ascending_no_duplicates, lemma_ascending_unique,
    lemma_inserted, lemma_precedes_connected, lemma_precedes_transitive, precedes,
};
use crate::text::{chars_of, same_chars, string_of, strings, texts};
use vstd::prelude::*;

verus! {

/// A set of class names. It holds each name once and keeps the names in
/// ascending order.
pub struct ClassSet {
    names: Vec<Vec<char>>,
}

/// The one ascending sequence that holds just the texts of `names`.
pub open spec fn in_order(names: Set<Seq<char>>) -> Seq<Seq<char>> {
    choose|order: Seq<Seq<char>>| ascending(order) && order.to_set() == names
}

/// An ascending sequence is the order of the set of its texts: a well-formed
/// class set is the order of its names.
pub proof fn lemma_in_order(order: Seq<Seq<char>>)
    requires
        ascending(order),
    ensures
        in_order(order.to_set()) == order,
{
    let chosen = in_order(order.to_set());
    assert(ascending(chosen) && chosen.to_set() == order.to_set());
    lemma_ascending_unique(chosen, order);
}

/// Every finite set of names has its order: an ascending sequence that holds
/// just the names of the set, each of them once.
pub proof fn lemma_order_of_finite(names: Set<Seq<char>>)
    requires
        names.finite(),
    ensures
        ascending(in_order(names)),
        in_order(names).to_set() == names,
        in_order(names).len() == names.len(),
    decreases names.len(),
{
    if names.len() == 0 {
        let order = Seq::<Seq<char>>::empty();
        assert(names =~= Set::empty());
        assert(order.to_set() =~= names);
        assert(ascending(order));
    } else {
        let x = names.choose();
        let rest = names.remove(x);
        lemma_order_of_finite(rest);
        lemma_inserted(in_order(rest), x);
        let order = inserted(in_order(rest), x);
        assert(order.to_set() =~= names);
        assert(ascending(order));
    }
    let chosen = in_order(names);
    lemma_ascending_no_duplicates(chosen);
    chosen.unique_seq_to_set();
}

impl View for ClassSet {
    type V = Seq<Seq<char>>;

    /// The names, in ascending order.
    closed spec fn view(&self) -> Seq<Seq<char>> {
        texts(self.names@)
    }
}

impl ClassSet {
    /// Whether the set is well formed: its names are in ascending order, so
    /// that none is held twice.
    pub open spec fn wf(&self) -> bool {
        ascending(self@)
    }

    /// The names as a set.
    pub open spec fn names(&self) -> Set<Seq<char>> {
        self@.to_set()
    }

    /// The set without names.
    pub fn new() -> (set: ClassSet)
        ensures
            set.wf(),
            set@ == Seq::<Seq<char>>::empty(),
    {
        let set = ClassSet { names: Vec::new() };
        assert(set@ =~= Seq::empty());
        set
    }

    /// The number of names.
    pub fn len(&self) -> (n: usize)
        ensures
            n == self@.len(),
    {
        self.names.len()
    }

    /// The name at index `i` of the ascending order.
    pub fn get(&self, i: usize) -> (name: &Vec<char>)
        requires
            i < self@.len(),
        ensures
            name@ == self@[i as int],
    {
        &self.names[i]
    }

    /// Adds `name` to the set, if it is not yet there.
    pub fn insert(&mut self, name: &str)
        requires
            old(self).wf(),
        ensures
            final(self).wf(),
            final(self).names() == old(self).names().insert(name@),
    {
        self.insert_chars(chars_of(name));
    }

    /// Adds the name that `name` holds to the set, if it is not yet there.
    pub fn insert_chars(&mut self, name: Vec<char>)
        requires
            old(self).wf(),
        ensures
            final(self).wf(),
            final(self).names() == old(self).names().insert(name@),
    {
        let ghost before = texts(self.names@);
        let mut i: usize = 0;
        while i < self.names.len() && comes_before(self.names[i].as_slice(), name.as_slice())
            invariant
                i <= self.names.len(),
                texts(self.names@) == before,
                forall|j: int| 0 <= j < i ==> precedes(#[trigger] before[j], name@),
            decreases self.names.len() - i,
        {
            i += 1;
        }
        if i < self.names.len() && same_chars(self.names[i].as_slice(), name.as_slice()) {
            assert(before[i as int] == name@);
            assert(before.to_set() =~= before.to_set().insert(name@));
        } else {
            self.names.insert(i, name);
            proof {
                let after = texts(self.names@);
                assert(after =~= before.insert(i as int, name@));
                assert forall|x: Seq<char>| after.to_set().contains(x) <==> before.to_set().insert(
                    name@,
                ).contains(x) by {
                    if after.contains(x) {
                        let k = choose|k: int| 0 <= k < after.len() && after[k] == x;
                        if k < i {
                            assert(before[k] == x);
                        } else if k > i {
                            assert(before[k - 1] == x);
                        }
                    }
                    if before.contains(x) {
                        let k = choose|k: int| 0 <= k < before.len() && before[k] == x;
                        if k < i {
                            assert(after[k] == x);
                        } else {
                            assert(after[k + 1] == x);
                        }
                    }
                    if x == name@ {
                        assert(after[i as int] == x);
                    }
                }
                assert(after.to_set() =~= before.to_set().insert(name@));
                if i < before.len() {
                    lemma_precedes_connected(before[i as int], name@);
                }
                assert forall|j: int, k: int| 0 <= j < k < after.len() implies precedes(
                    after[j],
                    after[k],
                ) by {
                    if k < i {
                        assert(precedes(before[j], before[k]));
                    } else if k == i {
                        assert(precedes(before[j], name@));
                    } else if j < i {
                        assert(precedes(before[j], before[k - 1]));
                    } else if j == i {
                        if k - 1 > i {
                            assert(precedes(before[i as int], before[k - 1]));
                            lemma_precedes_transitive(name@, before[i as int], before[k - 1]);
                        }
                    } else {
                        assert(precedes(before[j - 1], before[k - 1]));
                    }
                }
            }
        }
    }

    /// Tells whether `name` is in the set.
    pub fn contains(&self, name: &str) -> (found: bool)
        ensures
            found == self.names().contains(name@),
    {
        let wanted = chars_of(name);
        let mut i: usize = 0;
        while i < self.names.len()
            invariant
                i <= self.names.len(),
                wanted@ == name@,
                forall|j: int| 0 <= j < i ==> (#[trigger] self@[j]) != name@,
            decreases self.names.len() - i,
        {
            if same_chars(self.names[i].as_slice(), wanted.as_slice()) {
                assert(self@[i as int] == name@);
                return true;
            }
            i += 1;
        }
        false
    }

    /// The names as strings, in ascending order.
    pub fn to_vec(&self) -> (names: Vec<String>)
        ensures
            strings(names@) == self@,
    {
        let mut names: Vec<String> = Vec::new();
        let mut i: usize = 0;
        while i < self.names.len()
            invariant
                i <= self.names.len(),
                strings(names@) == self@.take(i as int),
            decreases self.names.len() - i,
        {
            let ghost before = strings(names@);
            names.push(string_of(self.names[i].as_slice()));
            assert(strings(names@) =~= before.push(self@[i as int]));
            assert(self@.take(i + 1) =~= before.push(self@[i as int]));
            i += 1;
        }
        assert(self@.take(i as int) =~= self@);
        names
    }
}

} // verus!
