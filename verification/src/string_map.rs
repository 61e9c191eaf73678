//! A map from strings that keeps its entries in the order in which their keys
//! were first inserted.
use vstd::prelude::*;
use vstd::std_specs::cmp::PartialEqSpec;
use crate::text::same_text;

verus! {

/// The map that a listing of entries stands for; a later entry wins.
pub open spec fn map_of<V>(entries: Seq<(String, V)>) -> Map<Seq<char>, V>
    decreases entries.len(),
{
    if entries.len() == 0 {
        Map::empty()
    } else {
        map_of(entries.drop_last()).insert(entries.last().0@, entries.last().1)
    }
}

/// No key is listed twice.
pub open spec fn distinct_keys<V>(entries: Seq<(String, V)>) -> bool {
    forall|i: int, j: int|
        0 <= i < j < entries.len() ==> (#[trigger] entries[i]).0@ != (#[trigger] entries[j]).0@
}

/// Where `key` is listed.
pub open spec fn listed_at<V>(entries: Seq<(String, V)>, key: Seq<char>, i: int) -> bool {
    0 <= i < entries.len() && entries[i].0@ == key
}

/// The entries of a listing without double keys are exactly those of its map,
/// and there are as many.
pub proof fn lemma_map_of<V>(entries: Seq<(String, V)>)
    requires
        distinct_keys(entries),
    ensures
        forall|i: int|
            0 <= i < entries.len() ==> map_of(entries).contains_key((#[trigger] entries[i]).0@)
                && map_of(entries)[entries[i].0@] == entries[i].1,
        forall|key: Seq<char>|
            #[trigger] map_of(entries).contains_key(key) ==> exists|i: int|
                listed_at(entries, key, i),
        map_of(entries).dom().finite(),
        map_of(entries).dom().len() == entries.len(),
    decreases entries.len(),
{
    if entries.len() > 0 {
        let rest = entries.drop_last();
        assert forall|i: int, j: int| 0 <= i < j < rest.len() implies (#[trigger] rest[i]).0@ != (
        #[trigger] rest[j]).0@ by {
            assert(entries[i].0@ != entries[j].0@);
        }
        lemma_map_of(rest);
        let last = entries.len() - 1;
        if map_of(rest).contains_key(entries[last].0@) {
            let i = choose|i: int| listed_at(rest, entries[last].0@, i);
            assert(entries[i].0@ != entries[last].0@);
        }
        assert(map_of(entries).dom() =~= map_of(rest).dom().insert(entries[last].0@));
        assert forall|i: int| 0 <= i < entries.len() implies map_of(entries).contains_key(
            (#[trigger] entries[i]).0@,
        ) && map_of(entries)[entries[i].0@] == entries[i].1 by {
            if i < last {
                assert(rest[i] == entries[i]);
                assert(entries[i].0@ != entries[last].0@);
            }
        }
        assert forall|key: Seq<char>| #[trigger] map_of(entries).contains_key(key) implies exists|
            i: int,
        | listed_at(entries, key, i) by {
            if key == entries[last].0@ {
                assert(listed_at(entries, key, last));
            } else {
                assert(map_of(rest).contains_key(key));
                let i = choose|i: int| listed_at(rest, key, i);
                assert(listed_at(entries, key, i));
            }
        }
    }
}

/// A map from strings to `V`.
#[derive(Debug)]
pub struct StringMap<V> {
    entries: Vec<(String, V)>,
}

impl<V> View for StringMap<V> {
    type V = Map<Seq<char>, V>;

    open spec fn view(&self) -> Map<Seq<char>, V> {
        map_of(self.listing())
    }
}

impl<V> StringMap<V> {
    /// The entries in the order in which their keys were first inserted.
    pub closed spec fn listing(&self) -> Seq<(String, V)> {
        self.entries@
    }

    #[verifier::type_invariant]
    closed spec fn well_formed(&self) -> bool {
        distinct_keys(self.entries@)
    }

    /// A map without entries.
    pub fn new() -> (r: Self)
        ensures
            r@ == Map::<Seq<char>, V>::empty(),
            r.listing() == Seq::<(String, V)>::empty(),
    {
        StringMap { entries: Vec::new() }
    }

    /// The entries in the order in which their keys were first inserted. No
    /// key is listed twice.
    pub fn entries(&self) -> (r: &Vec<(String, V)>)
        ensures
            r@ == self.listing(),
            distinct_keys(self.listing()),
            self@.dom().finite(),
            self@.dom().len() == r@.len(),
    {
        proof {
            use_type_invariant(self);
            lemma_map_of(self.entries@);
        }
        &self.entries
    }

    /// The entries themselves, in the order in which their keys were first
    /// inserted.
    pub fn into_entries(self) -> (r: Vec<(String, V)>)
        ensures
            r@ == self.listing(),
            distinct_keys(self.listing()),
    {
        proof {
            use_type_invariant(&self);
        }
        self.entries
    }

    /// How many keys there are.
    pub fn len(&self) -> (r: usize)
        ensures
            self@.dom().finite(),
            r == self@.dom().len(),
            r == self.listing().len(),
    {
        proof {
            use_type_invariant(self);
            lemma_map_of(self.entries@);
        }
        self.entries.len()
    }

    pub fn is_empty(&self) -> (r: bool)
        ensures
            r == (self@ == Map::<Seq<char>, V>::empty()),
            r == (self.listing().len() == 0),
    {
        proof {
            use_type_invariant(self);
            lemma_map_of(self.entries@);
            if self.entries@.len() > 0 {
                assert(self@.contains_key(self.entries@[0].0@));
            }
        }
        self.entries.len() == 0
    }

    fn position(&self, key: &str) -> (r: Option<usize>)
        ensures
            r is Some ==> listed_at(self.entries@, key@, r->0 as int),
            r is None ==> forall|i: int| !listed_at(self.entries@, key@, i),
    {
        let mut i: usize = 0;
        while i < self.entries.len()
            invariant
                i <= self.entries.len(),
                forall|j: int| 0 <= j < i ==> !listed_at(self.entries@, key@, j),
            decreases self.entries.len() - i,
        {
            if same_text(self.entries[i].0.as_str(), key) {
                return Some(i);
            }
            i += 1;
        }
        None
    }

    /// What `key` is mapped to.
    pub fn get(&self, key: &str) -> (r: Option<&V>)
        ensures
            r == (if self@.contains_key(key@) {
                Some(&self@[key@])
            } else {
                None
            }),
    {
        proof {
            use_type_invariant(self);
            lemma_map_of(self.entries@);
        }
        match self.position(key) {
            Some(i) => Some(&self.entries[i].1),
            None => None,
        }
    }

    pub fn contains_key(&self, key: &str) -> (r: bool)
        ensures
            r == self@.contains_key(key@),
    {
        proof {
            use_type_invariant(self);
            lemma_map_of(self.entries@);
        }
        self.position(key).is_some()
    }

    /// Maps `key` to `value`, whatever it was mapped to before.
    pub fn insert(&mut self, key: String, value: V)
        ensures
            final(self)@ == old(self)@.insert(key@, value),
            !old(self)@.contains_key(key@) ==> final(self).listing() == old(self).listing().push(
                (key, value),
            ),
    {
        proof {
            use_type_invariant(&*self);
            lemma_map_of(self.entries@);
        }
        let ghost before = self.entries@;
        let ghost bound = value;
        match self.position(key.as_str()) {
            Some(i) => {
                let mut entries: Vec<(String, V)> = Vec::new();
                std::mem::swap(&mut entries, &mut self.entries);
                entries.set(i, (key, value));
                proof {
                    assert(entries@ == before.update(i as int, (key, value)));
                    lemma_map_of(entries@);
                    assert(map_of(entries@) =~= map_of(before).insert(key@, value)) by {
                        assert forall|k: Seq<char>| map_of(entries@).contains_key(k) <==> map_of(
                            before,
                        ).insert(key@, value).contains_key(k) by {
                            if map_of(entries@).contains_key(k) {
                                let j = choose|j: int| listed_at(entries@, k, j);
                                assert(before[j].0@ == k);
                            }
                            if map_of(before).contains_key(k) {
                                let j = choose|j: int| listed_at(before, k, j);
                                assert(entries@[j].0@ == k);
                            }
                            assert(entries@[i as int].0@ == key@);
                        }
                        assert forall|k: Seq<char>| map_of(entries@).contains_key(k) implies map_of(
                            entries@,
                        )[k] == map_of(before).insert(key@, value)[k] by {
                            let j = choose|j: int| listed_at(entries@, k, j);
                            assert(entries@[j].0@ == k);
                            assert(before[j].0@ == k);
                        }
                    }
                }
                std::mem::swap(&mut entries, &mut self.entries);
            },
            None => {
                let mut entries: Vec<(String, V)> = Vec::new();
                std::mem::swap(&mut entries, &mut self.entries);
                entries.push((key, value));
                proof {
                    assert forall|i: int, j: int| 0 <= i < j < entries@.len() implies (
                    #[trigger] entries@[i]).0@ != (#[trigger] entries@[j]).0@ by {
                        if j == before.len() {
                            assert(!listed_at(before, key@, i));
                        } else {
                            assert(before[i].0@ != before[j].0@);
                        }
                    }
                    assert(entries@.drop_last() =~= before);
                }
                std::mem::swap(&mut entries, &mut self.entries);
            },
        }
    }

    /// Takes `key` out of the map, if it was there.
    pub fn remove(&mut self, key: &str)
        ensures
            final(self)@ == old(self)@.remove(key@),
    {
        proof {
            use_type_invariant(&*self);
            lemma_map_of(self.entries@);
        }
        let ghost before = self.entries@;
        match self.position(key) {
            Some(i) => {
                let mut entries: Vec<(String, V)> = Vec::new();
                std::mem::swap(&mut entries, &mut self.entries);
                let _gone = entries.remove(i);
                proof {
                    assert(entries@ == before.remove(i as int));
                    assert forall|a: int, b: int| 0 <= a < b < entries@.len() implies (
                    #[trigger] entries@[a]).0@ != (#[trigger] entries@[b]).0@ by {
                        let a2 = if a < i { a } else { a + 1 };
                        let b2 = if b < i { b } else { b + 1 };
                        assert(before[a2].0@ != before[b2].0@);
                    }
                    lemma_map_of(entries@);
                    assert(map_of(entries@) =~= map_of(before).remove(key@)) by {
                        assert forall|k: Seq<char>| map_of(entries@).contains_key(k) <==> map_of(
                            before,
                        ).remove(key@).contains_key(k) by {
                            if map_of(entries@).contains_key(k) {
                                let j = choose|j: int| listed_at(entries@, k, j);
                                let j2 = if j < i { j } else { j + 1 };
                                assert(before[j2].0@ == k);
                                assert(before[i as int].0@ != before[j2].0@);
                            }
                            if map_of(before).remove(key@).contains_key(k) {
                                let j = choose|j: int| listed_at(before, k, j);
                                let j2 = if j < i { j } else { j - 1 };
                                assert(entries@[j2].0@ == k);
                            }
                        }
                        assert forall|k: Seq<char>| map_of(entries@).contains_key(k) implies map_of(
                            entries@,
                        )[k] == map_of(before).remove(key@)[k] by {
                            let j = choose|j: int| listed_at(entries@, k, j);
                            let j2 = if j < i { j } else { j + 1 };
                            assert(entries@[j].0@ == k);
                            assert(before[j2].0@ == k);
                        }
                    }
                }
                std::mem::swap(&mut entries, &mut self.entries);
            },
            None => {
                proof {
                    if map_of(before).contains_key(key@) {
                        let j = choose|j: int| listed_at(before, key@, j);
                        assert(!listed_at(self.entries@, key@, j));
                    }
                    assert(map_of(before) =~= map_of(before).remove(key@));
                }
            },
        }
    }

    /// Whether both maps have the same keys, whatever they map them to.
    pub fn same_keys(&self, other: &Self) -> (r: bool)
        ensures
            r == (self@.dom() == other@.dom()),
    {
        proof {
            use_type_invariant(self);
            use_type_invariant(other);
            lemma_map_of(self.entries@);
            lemma_map_of(other.entries@);
        }
        if self.entries.len() != other.entries.len() {
            return false;
        }
        let mut i: usize = 0;
        while i < self.entries.len()
            invariant
                i <= self.entries.len(),
                distinct_keys(self.entries@),
                forall|j: int|
                    0 <= j < self.entries@.len() ==> self@.contains_key(
                        (#[trigger] self.entries@[j]).0@,
                    ),
                forall|j: int|
                    0 <= j < i ==> other@.contains_key((#[trigger] self.entries@[j]).0@),
            decreases self.entries.len() - i,
        {
            if !other.contains_key(self.entries[i].0.as_str()) {
                assert(self@.dom().contains(self.entries@[i as int].0@));
                assert(!other@.dom().contains(self.entries@[i as int].0@));
                return false;
            }
            i += 1;
        }
        proof {
            assert(self@.dom().subset_of(other@.dom())) by {
                assert forall|k: Seq<char>| self@.dom().contains(k) implies other@.dom().contains(
                    k,
                ) by {
                    let j = choose|j: int| listed_at(self.entries@, k, j);
                    assert(self.entries@[j].0@ == k);
                }
            }
            vstd::set_lib::lemma_subset_equality(self@.dom(), other@.dom());
        }
        true
    }
}

/// Every entry is cloned, in its place.
impl<V: Clone> Clone for StringMap<V> {
    fn clone(&self) -> (r: Self)
        ensures
            r.listing().len() == self.listing().len(),
            forall|i: int|
                0 <= i < self.listing().len() ==> (#[trigger] r.listing()[i]).0@
                    == self.listing()[i].0@ && cloned(self.listing()[i].1, r.listing()[i].1),
    {
        proof {
            use_type_invariant(self);
        }
        let mut entries: Vec<(String, V)> = Vec::new();
        let mut i: usize = 0;
        while i < self.entries.len()
            invariant
                i <= self.entries.len(),
                entries@.len() == i,
                distinct_keys(self.entries@),
                forall|j: int|
                    0 <= j < i ==> (#[trigger] entries@[j]).0@ == self.entries@[j].0@ && cloned(
                        self.entries@[j].1,
                        entries@[j].1,
                    ),
            decreases self.entries.len() - i,
        {
            let key: String = self.entries[i].0.clone();
            let value: V = self.entries[i].1.clone();
            entries.push((key, value));
            i += 1;
        }
        assert(distinct_keys(entries@)) by {
            assert forall|i: int, j: int| 0 <= i < j < entries@.len() implies (
            #[trigger] entries@[i]).0@ != (#[trigger] entries@[j]).0@ by {
                assert(self.entries@[i].0@ != self.entries@[j].0@);
            }
        }
        StringMap { entries }
    }
}

impl<V: PartialEq> vstd::std_specs::cmp::PartialEqSpecImpl for StringMap<V> {
    open spec fn obeys_eq_spec() -> bool {
        V::obeys_eq_spec()
    }

    open spec fn eq_spec(&self, other: &StringMap<V>) -> bool {
        &&& self@.dom() == other@.dom()
        &&& forall|k: Seq<char>| #[trigger]
            self@.contains_key(k) ==> self@[k].eq_spec(&other@[k])
    }
}

/// Two maps are equal where they map the same keys to equal values, in whatever
/// order they list them.
impl<V: PartialEq> PartialEq for StringMap<V> {
    fn eq(&self, other: &StringMap<V>) -> (r: bool) {
        if !self.same_keys(other) {
            return false;
        }
        proof {
            use_type_invariant(self);
            lemma_map_of(self.entries@);
        }
        let mut i: usize = 0;
        while i < self.entries.len()
            invariant
                i <= self.entries.len(),
                self@.dom() == other@.dom(),
                forall|j: int|
                    0 <= j < self.entries@.len() ==> self@.contains_key(
                        (#[trigger] self.entries@[j]).0@,
                    ) && self@[self.entries@[j].0@] == self.entries@[j].1,
                V::obeys_eq_spec() ==> forall|j: int|
                    0 <= j < i ==> (#[trigger] self.entries@[j]).1.eq_spec(
                        &other@[self.entries@[j].0@],
                    ),
            decreases self.entries.len() - i,
        {
            match other.get(self.entries[i].0.as_str()) {
                Some(value) => {
                    if self.entries[i].1 != *value {
                        return false;
                    }
                },
                None => {
                    return false;
                },
            }
            i += 1;
        }
        proof {
            assert forall|k: Seq<char>| V::obeys_eq_spec() && #[trigger]
                self@.contains_key(k) implies self@[k].eq_spec(&other@[k]) by {
                let j = choose|j: int| listed_at(self.entries@, k, j);
                assert(self.entries@[j].0@ == k);
            }
        }
        true
    }
}

impl<V: Eq> Eq for StringMap<V> {

}

} // verus!
