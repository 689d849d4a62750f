//! Sets and maps that the session is built from.
use std::collections::{HashMap, HashSet};

use vstd::hash_set::StringHashSet;
use vstd::prelude::*;
use vstd::string::*;

verus! {

broadcast use {vstd::std_specs::hash::group_hash_axioms, vstd::hash_set::group_hash_set_axioms};

/// The contents of a list of strings, in order.
pub open spec fn texts(items: Seq<String>) -> Seq<Seq<char>> {
    items.map_values(|s: String| s@)
}

/// The elements of a set, each once, in the order in which the set is walked.
pub fn members(set: &HashSet<u64>) -> (list: Vec<u64>)
    ensures
        list@.no_duplicates(),
        list@.to_set() == set@,
{
    let mut list: Vec<u64> = Vec::new();
    for x in it: set.iter()
        invariant
            list@ == it.seq().unref().take(it.index()),
            list@.no_duplicates(),
            it.seq().unref().to_set() == set@,
            it.seq().no_duplicates(),
            it.index() == it.seq().len() ==> list@ == it.seq().unref(),
    {
        list.push(*x);
        assert(list@ =~= it.seq().unref().take(it.index() + 1));
    }
    list
}

/// The keys of a map, each once, in the order in which the map is walked.
pub fn keys_of<V>(map: &HashMap<u64, V>) -> (list: Vec<u64>)
    ensures
        list@.no_duplicates(),
        list@.to_set() == map@.dom(),
{
    let mut list: Vec<u64> = Vec::new();
    for x in it: map.keys()
        invariant
            list@ == it.seq().unref().take(it.index()),
            list@.no_duplicates(),
            it.seq().unref().to_set() == map@.dom(),
            it.seq().no_duplicates(),
            it.index() == it.seq().len() ==> list@ == it.seq().unref(),
    {
        list.push(*x);
        assert(list@ =~= it.seq().unref().take(it.index() + 1));
    }
    list
}

/// Adds every element of `other` to `set`.
pub fn extend_set(set: &mut HashSet<u64>, other: &HashSet<u64>)
    ensures
        final(set)@ == old(set)@.union(other@),
{
    let ghost before = set@;
    let list: Vec<u64> = members(other);
    let mut i: usize = 0;
    while i < list.len()
        invariant
            i <= list@.len(),
            list@.to_set() == other@,
            set@ == before.union(list@.take(i as int).to_set()),
        decreases list@.len() - i,
    {
        set.insert(list[i]);
        proof {
            lemma_take_to_set(list@, i as int);
        }
        i = i + 1;
    }
    assert(list@.take(i as int) =~= list@);
}

/// A copy of a set.
pub fn copy_set(set: &HashSet<u64>) -> (r: HashSet<u64>)
    ensures
        r@ == set@,
{
    let mut r: HashSet<u64> = HashSet::new();
    extend_set(&mut r, set);
    r
}

/// A set of strings that is walked in the order of insertion.
pub struct KeySet {
    items: Vec<String>,
    index: StringHashSet,
}

impl View for KeySet {
    type V = Set<Seq<char>>;

    closed spec fn view(&self) -> Set<Seq<char>> {
        self.index@
    }
}

impl KeySet {
    /// The elements in the order of their insertion.
    pub closed spec fn order(&self) -> Seq<Seq<char>> {
        texts(self.items@)
    }

    /// The list of the elements and their index agree, and nothing occurs twice.
    pub closed spec fn wf(&self) -> bool {
        &&& self.order().no_duplicates()
        &&& self.order().to_set() == self.index@
    }

    /// What holds of every well-formed set: its order lists each element once.
    pub proof fn lemma_order(&self)
        requires
            self.wf(),
        ensures
            self.order().no_duplicates(),
            self.order().to_set() == self@,
    {
    }

    /// The set without elements.
    pub fn new() -> (r: Self)
        ensures
            r.wf(),
            r@ == Set::<Seq<char>>::empty(),
            r.order() == Seq::<Seq<char>>::empty(),
    {
        let r = KeySet { items: Vec::new(), index: StringHashSet::new() };
        assert(r.order().to_set() =~= r.index@);
        r
    }

    /// The number of elements.
    pub fn len(&self) -> (n: usize)
        requires
            self.wf(),
        ensures
            n == self.order().len(),
            n == self@.len(),
    {
        proof {
            self.order().unique_seq_to_set();
        }
        self.items.len()
    }

    /// True where the set has no element.
    pub fn is_empty(&self) -> (b: bool)
        ensures
            b == (self@ == Set::<Seq<char>>::empty()),
    {
        self.index.is_empty()
    }

    /// True where `key` is an element.
    pub fn contains(&self, key: &str) -> (b: bool)
        ensures
            b == self@.contains(key@),
    {
        self.index.contains(key)
    }

    /// The element at place `i` of the order of insertion.
    pub fn get(&self, i: usize) -> (key: &String)
        requires
            i < self.order().len(),
        ensures
            key@ == self.order()[i as int],
    {
        &self.items[i]
    }

    /// Adds `key`; `false` where it was an element already.
    pub fn insert(&mut self, key: String) -> (added: bool)
        requires
            old(self).wf(),
        ensures
            final(self).wf(),
            final(self)@ == old(self)@.insert(key@),
            added == !old(self)@.contains(key@),
            final(self).order() == if old(self)@.contains(key@) {
                old(self).order()
            } else {
                old(self).order().push(key@)
            },
    {
        let ghost before = self.order();
        if self.index.contains(key.as_str()) {
            assert(self.index@.insert(key@) =~= self.index@);
            false
        } else {
            self.items.push(key.clone());
            self.index.insert(key);
            assert(self.order() =~= before.push(key@));
            assert(!before.to_set().contains(key@));
            proof {
                lemma_push_to_set(before, key@);
            }
            true
        }
    }
}

impl Clone for KeySet {
    /// A copy with the same elements in the same order.
    fn clone(&self) -> (r: Self)
        ensures
            self.wf() ==> r.wf() && r@ == self@ && r.order() == self.order(),
    {
        let mut r: KeySet = KeySet::new();
        let mut i: usize = 0;
        while i < self.items.len()
            invariant
                i <= self.items@.len(),
                r.wf(),
                self.wf() ==> r.order() == self.order().take(i as int),
            decreases self.items@.len() - i,
        {
            proof {
                if self.wf() && r@.contains(self.order()[i as int]) {
                    let j = choose|j: int|
                        0 <= j < r.order().len() && r.order()[j] == self.order()[i as int];
                    assert(self.order()[j] == self.order()[i as int]);
                }
            }
            r.insert(self.items[i].clone());
            assert(self.order().take(i + 1) =~= self.order().take(i as int).push(
                self.order()[i as int],
            ));
            i = i + 1;
        }
        assert(self.order().take(i as int) =~= self.order());
        r
    }
}

/// Appending an element to a sequence adds it to the set of the elements.
pub proof fn lemma_push_to_set<A>(s: Seq<A>, x: A)
    ensures
        s.push(x).to_set() == s.to_set().insert(x),
{
    assert forall|y: A| s.push(x).to_set().contains(y) == s.to_set().insert(x).contains(y) by {
        if s.to_set().contains(y) {
            let j = choose|j: int| 0 <= j < s.len() && s[j] == y;
            assert(s.push(x)[j] == y);
        }
        if y == x {
            assert(s.push(x)[s.len() as int] == y);
        }
    }
    assert(s.push(x).to_set() =~= s.to_set().insert(x));
}

/// The elements of a prefix, extended by one.
pub proof fn lemma_take_to_set<A>(s: Seq<A>, i: int)
    requires
        0 <= i < s.len(),
    ensures
        s.take(i + 1) == s.take(i).push(s[i]),
        s.take(i + 1).to_set() == s.take(i).to_set().insert(s[i]),
{
    assert(s.take(i + 1) =~= s.take(i).push(s[i]));
    lemma_push_to_set(s.take(i), s[i]);
}

} // verus!
