//! A dictionary in which a key may or may not have a value.

use std::fmt::Display;
use std::marker::PhantomData;
use std::ops::Index;
use std::ops::IndexMut;
use vstd::prelude::*;
use vstd::std_specs::cmp::PartialEqSpec;

use crate::dict_key::collected;
use crate::dict_key::empty_slots;
use crate::dict_key::named;
use crate::dict_key::names;
use crate::dict_key::DictKey;
use crate::dict_key::DictVisitor;
use crate::text::plain;
use crate::text::show;
use crate::text::shows;

verus! {

/// A dictionary with one slot for each key of `K`, in a dense sequence
/// indexed by the keys' ordinals. A slot holds a value or nothing.
#[derive(Debug, PartialOrd, Ord, Hash)]
pub struct OptionalDict<K: DictKey, V> {
    inner: Vec<Option<V>>,
    phantom: PhantomData<K>,
}

/// The number of full slots among the first `n`.
pub open spec fn present_count<V>(slots: Seq<Option<V>>, n: int) -> nat
    decreases n,
{
    if n <= 0 {
        0
    } else if slots[n - 1] is Some {
        present_count(slots, n - 1) + 1
    } else {
        present_count(slots, n - 1)
    }
}

/// What the first `n` slots are written as: the name and the value of every
/// full slot, in ordinal order. Empty slots are left out.
pub open spec fn present<V>(names: Seq<Seq<char>>, slots: Seq<Option<V>>, n: int) -> Seq<
    (Seq<char>, V),
>
    decreases n,
{
    if n <= 0 {
        Seq::empty()
    } else if slots[n - 1] is Some {
        present(names, slots, n - 1).push((names[n - 1], slots[n - 1]->Some_0))
    } else {
        present(names, slots, n - 1)
    }
}

/// Whether two slots are both empty, or both full with values that `V`
/// takes for equal.
pub open spec fn slots_equal<V: PartialEq>(left: Option<V>, right: Option<V>) -> bool {
    match (left, right) {
        (None, None) => true,
        (Some(x), Some(y)) => x.eq_spec(&y),
        _ => false,
    }
}

/// Whether two sequences of slots are equal slot by slot.
pub open spec fn all_slots_equal<V: PartialEq>(left: Seq<Option<V>>, right: Seq<Option<V>>) -> bool {
    &&& left.len() == right.len()
    &&& forall|i: int| 0 <= i < left.len() ==> #[trigger] slots_equal(left[i], right[i])
}

/// There are at most as many full slots as slots, and none exactly when every
/// slot is empty.
pub proof fn lemma_present_count<V>(slots: Seq<Option<V>>, n: int)
    requires
        0 <= n <= slots.len(),
    ensures
        present_count(slots, n) <= n,
        present_count(slots, n) == 0 <==> forall|i: int| 0 <= i < n ==> slots[i] is None,
    decreases n,
{
    if n > 0 {
        lemma_present_count(slots, n - 1);
    }
}

/// As many entries are written as there are full slots.
pub proof fn lemma_present_len<V>(names: Seq<Seq<char>>, slots: Seq<Option<V>>, n: int)
    requires
        0 <= n <= slots.len(),
    ensures
        present(names, slots, n).len() == present_count(slots, n),
    decreases n,
{
    if n > 0 {
        lemma_present_len(names, slots, n - 1);
    }
}

impl<K: DictKey, V> View for OptionalDict<K, V> {
    type V = Seq<Option<V>>;

    /// The slots, indexed by the keys' ordinals.
    closed spec fn view(&self) -> Seq<Option<V>> {
        self.inner@
    }
}

impl<K: DictKey, V> OptionalDict<K, V> {
    #[verifier::type_invariant]
    spec fn well_formed(self) -> bool {
        self.inner@.len() == names::<K>().len()
    }

    /// A dictionary in which no key has a value.
    pub fn new() -> (dict: Self)
        ensures
            dict@ == empty_slots::<V>(names::<K>()),
    {
        OptionalDict { inner: DictVisitor::<K, V>::new().start(), phantom: PhantomData }
    }

    /// The number of keys that have a value.
    pub fn len(&self) -> (count: usize)
        ensures
            count == present_count(self@, self@.len() as int),
            self@.len() == names::<K>().len(),
    {
        proof {
            use_type_invariant(self);
        }
        let mut count: usize = 0;
        let mut i: usize = 0;
        while i < self.inner.len()
            invariant
                i <= self.inner.len(),
                count == present_count(self.inner@, i as int),
                count <= i,
            decreases self.inner.len() - i,
        {
            if self.inner[i].is_some() {
                count += 1;
            }
            i += 1;
        }
        count
    }

    /// Whether no key has a value.
    pub fn is_empty(&self) -> (empty: bool)
        ensures
            empty == (forall|i: int| 0 <= i < self@.len() ==> self@[i] is None),
    {
        proof {
            lemma_present_count(self@, self@.len() as int);
        }
        self.len() == 0
    }

    /// Makes a dictionary from one slot per key.
    pub fn from_slots(slots: Vec<Option<V>>) -> (dict: Self)
        requires
            slots@.len() == names::<K>().len(),
        ensures
            dict@ == slots@,
    {
        OptionalDict { inner: slots, phantom: PhantomData }
    }

    /// Makes a dictionary by asking `f` for the value of every key. `keys`
    /// holds the keys in ordinal order; the slot at an ordinal gets what `f`
    /// gives for the key at that position.
    pub fn from_keys<F: Fn(K) -> Option<V>>(keys: Vec<K>, f: F) -> (dict: Self)
        requires
            keys@.len() == names::<K>().len(),
            forall|i: int| 0 <= i < keys@.len() ==> call_requires(f, (#[trigger] keys@[i],)),
        ensures
            dict@.len() == keys@.len(),
            forall|i: int| 0 <= i < keys@.len() ==> call_ensures(f, (keys@[i],), #[trigger] dict@[i]),
    {
        let ghost all = keys@;
        let mut inner: Vec<Option<V>> = Vec::new();
        for key in iter: keys
            invariant
                iter.seq() == all,
                forall|i: int| 0 <= i < all.len() ==> call_requires(f, (#[trigger] all[i],)),
                inner@.len() == iter.index(),
                forall|i: int|
                    0 <= i < iter.index() ==> call_ensures(f, (all[i],), #[trigger] inner@[i]),
        {
            let slot = f(key);
            inner.push(slot);
        }
        OptionalDict { inner, phantom: PhantomData }
    }

    /// Reads a dictionary from the entries of a map, in whatever order they
    /// come. Entries that name no key are passed over, of several entries for
    /// one key the last one stays, and a key without an entry has no value.
    pub fn deserialize(entries: Vec<(String, V)>) -> (dict: Self)
        ensures
            dict@ == collected(names::<K>(), named(entries@), entries@.len() as int),
    {
        OptionalDict { inner: DictVisitor::<K, V>::new().visit_map(entries), phantom: PhantomData }
    }

    /// Writes the dictionary as the entries of a map: the canonical name and
    /// the value of every key that has one, in ordinal order.
    pub fn serialize(&self) -> (entries: Vec<(&'static str, &V)>)
        ensures
            plain(entries@) == present(
                names::<K>(),
                self@,
                self@.len() as int,
            ),
    {
        proof {
            use_type_invariant(self);
        }
        let ghost all = names::<K>();
        let mut entries: Vec<(&'static str, &V)> = Vec::new();
        let mut i: usize = 0;
        while i < self.inner.len()
            invariant
                i <= self.inner.len(),
                self.inner@.len() == K::VARIANTS@.len(),
                all == names::<K>(),
                plain(entries@) == present(
                    all,
                    self.inner@,
                    i as int,
                ),
            decreases self.inner.len() - i,
        {
            let ghost before = plain(entries@);
            match &self.inner[i] {
                Some(value) => {
                    entries.push((K::VARIANTS[i], value));
                    assert(plain(entries@)
                        =~= before.push((K::VARIANTS@[i as int]@, *value)));
                },
                None => {},
            }
            i += 1;
        }
        entries
    }

    /// The slot of `key`.
    pub fn get(&self, key: K) -> (slot: &Option<V>)
        ensures
            key.ordinal() < self@.len(),
            *slot == self@[key.ordinal() as int],
    {
        proof {
            use_type_invariant(self);
        }
        &self.inner[key.variant_index()]
    }

    /// Replaces what the slot of `key` holds.
    pub fn set(&mut self, key: K, slot: Option<V>)
        ensures
            key.ordinal() < old(self)@.len(),
            final(self)@ == old(self)@.update(key.ordinal() as int, slot),
    {
        proof {
            use_type_invariant(&*self);
        }
        let index = key.variant_index();
        self.inner[index] = slot;
    }
}

impl<K: DictKey, V> Default for OptionalDict<K, V> {
    /// A dictionary in which no key has a value.
    fn default() -> (dict: Self)
        ensures
            dict@ == empty_slots::<V>(names::<K>()),
    {
        OptionalDict::new()
    }
}

impl<K: DictKey, V: Clone> Clone for OptionalDict<K, V> {
    /// A dictionary that holds a clone of every slot.
    fn clone(&self) -> (copy: Self)
        ensures
            copy@.len() == self@.len(),
            forall|i: int| 0 <= i < self@.len() ==> cloned(self@[i], #[trigger] copy@[i]),
    {
        proof {
            use_type_invariant(self);
        }
        OptionalDict { inner: self.inner.clone(), phantom: PhantomData }
    }
}

impl<K: DictKey, V: PartialEq> PartialEq for OptionalDict<K, V> {
    /// Whether the two dictionaries hold equal slots for every key.
    fn eq(&self, other: &Self) -> (same: bool) {
        proof {
            let left = self.inner;
            let right = other.inner;
            if left.eq_spec(&right) {
                assert forall|i: int| 0 <= i < self@.len() implies #[trigger] slots_equal(
                    self@[i],
                    other@[i],
                ) by {
                    assert(left[i].eq_spec(&right[i]));
                }
            }
            if all_slots_equal(self@, other@) {
                assert forall|i: int| 0 <= i < left.len() implies #[trigger] left[i].eq_spec(
                    &right[i],
                ) by {
                    assert(slots_equal(self@[i], other@[i]));
                }
            }
        }
        self.inner == other.inner
    }
}

impl<K: DictKey, V: PartialEq> vstd::std_specs::cmp::PartialEqSpecImpl for OptionalDict<K, V> {
    open spec fn obeys_eq_spec() -> bool {
        V::obeys_eq_spec()
    }

    open spec fn eq_spec(&self, other: &Self) -> bool {
        all_slots_equal(self@, other@)
    }
}

impl<K: DictKey, V: Eq> Eq for OptionalDict<K, V> {

}

impl<K: DictKey, V: Display> OptionalDict<K, V> {
    /// Shows the dictionary: between braces, each entry that is written as
    /// its name, `: ` and what the `Display` of its value gives, with `, `
    /// ahead of the first entry.
    pub fn to_string(&self) -> (text: String)
        ensures
            exists|texts: Seq<String>|
                #[trigger] shows(
                    present(names::<K>(), self@, self@.len() as int),
                    texts,
                    text@,
                ),
    {
        let entries = self.serialize();
        show(&entries)
    }
}

impl<K: DictKey, V> Index<K> for OptionalDict<K, V> {
    type Output = Option<V>;

    /// The slot of `key`.
    fn index(&self, key: K) -> (slot: &Option<V>)
        ensures
            key.ordinal() < self@.len(),
            *slot == self@[key.ordinal() as int],
    {
        self.get(key)
    }
}

impl<K: DictKey, V> vstd::std_specs::core::IndexSpecImpl<K> for OptionalDict<K, V> {
    open spec fn index_req(&self, key: &K) -> bool {
        true
    }
}

impl<K: DictKey, V> IndexMut<K> for OptionalDict<K, V> {
    /// The place of the slot of `key`.
    fn index_mut(&mut self, key: K) -> (slot: &mut Option<V>)
        ensures
            key.ordinal() < old(self)@.len(),
            *slot == old(self)@[key.ordinal() as int],
            final(self)@ == old(self)@.update(key.ordinal() as int, *final(slot)),
    {
        proof {
            use_type_invariant(&*self);
        }
        let index = key.variant_index();
        &mut self.inner[index]
    }
}

} // verus!
