//! A dictionary that holds a value for every key.

use std::fmt::Display;
use std::marker::PhantomData;
use std::ops::Index;
use std::ops::IndexMut;
use vstd::prelude::*;
use vstd::std_specs::cmp::PartialEqSpec;
use vstd::string::StringExecFns;

use crate::dict_key::collected;
use crate::dict_key::named;
use crate::dict_key::names;
use crate::dict_key::DictKey;
use crate::dict_key::DictVisitor;
use crate::text::join;
use crate::text::joined;
use crate::text::plain;
use crate::text::show;
use crate::text::shows;

verus! {

/// A dictionary that holds exactly one value for each key of `K`, in a dense
/// sequence indexed by the keys' ordinals.
#[derive(Debug, PartialOrd, Ord, Hash)]
pub struct RequiredDict<K: DictKey, V> {
    inner: Vec<V>,
    phantom: PhantomData<K>,
}

/// The keys that a map lacked, by their canonical names in ordinal order.
#[derive(Debug)]
pub struct MissingKeys {
    names: Vec<&'static str>,
}

/// The canonical names of the slots that are empty among the first `n`, in
/// ordinal order.
pub open spec fn missing<V>(names: Seq<Seq<char>>, slots: Seq<Option<V>>, n: int) -> Seq<Seq<char>>
    decreases n,
{
    if n <= 0 {
        Seq::empty()
    } else if slots[n - 1] is None {
        missing(names, slots, n - 1).push(names[n - 1])
    } else {
        missing(names, slots, n - 1)
    }
}

/// The values of slots that are all full.
pub open spec fn values_of<V>(slots: Seq<Option<V>>) -> Seq<V> {
    Seq::new(slots.len(), |i: int| slots[i]->Some_0)
}

/// What a required dictionary is written as: every name with its value, in
/// ordinal order.
pub open spec fn written<V>(names: Seq<Seq<char>>, values: Seq<V>) -> Seq<(Seq<char>, V)> {
    Seq::new(names.len(), |i: int| (names[i], values[i]))
}

/// The message for the canonical names `names` of the keys that a map
/// lacked.
pub open spec fn missing_keys_message(names: Seq<Seq<char>>) -> Seq<char> {
    "Missing keys: "@ + joined(names, ", "@)
}

/// Nothing is missing exactly when every slot is full.
pub proof fn lemma_missing_none<V>(names: Seq<Seq<char>>, slots: Seq<Option<V>>, n: int)
    requires
        0 <= n <= slots.len(),
    ensures
        missing(names, slots, n).len() == 0 <==> forall|i: int| 0 <= i < n ==> slots[i] is Some,
    decreases n,
{
    if n > 0 {
        lemma_missing_none(names, slots, n - 1);
    }
}

impl MissingKeys {
    /// The canonical names of the missing keys, in ordinal order.
    pub closed spec fn view(&self) -> Seq<Seq<char>> {
        self.names@.map_values(|name: &'static str| name@)
    }

    /// The canonical names of the missing keys, in ordinal order.
    pub fn names(&self) -> (names: &Vec<&'static str>)
        ensures
            names@.map_values(|name: &'static str| name@) == self@,
    {
        &self.names
    }

    /// The message for the user: the names, separated by `, `.
    pub fn to_string(&self) -> (message: String)
        ensures
            message@ == missing_keys_message(self@),
    {
        assert(self.names@.map_values(|part: &str| part@) =~= self@);
        String::from_str("Missing keys: ").concat(join(&self.names, ", ").as_str())
    }
}

impl<K: DictKey, V> View for RequiredDict<K, V> {
    type V = Seq<V>;

    /// The values, indexed by the keys' ordinals.
    closed spec fn view(&self) -> Seq<V> {
        self.inner@
    }
}

impl<K: DictKey, V> RequiredDict<K, V> {
    #[verifier::type_invariant]
    spec fn well_formed(self) -> bool {
        self.inner@.len() == names::<K>().len()
    }

    /// The number of values, which is the number of keys.
    pub fn len(&self) -> (count: usize)
        ensures
            count == self@.len(),
            count == names::<K>().len(),
    {
        proof {
            use_type_invariant(self);
        }
        self.inner.len()
    }

    /// Whether `K` has no key at all.
    pub fn is_empty(&self) -> (empty: bool)
        ensures
            empty == (self@.len() == 0),
    {
        self.len() == 0
    }

    /// Makes a dictionary from one slot per key. It is made where every slot
    /// is full; otherwise the keys of the empty slots are handed back.
    pub fn from_slots(slots: Vec<Option<V>>) -> (made: Result<Self, MissingKeys>)
        requires
            slots@.len() == names::<K>().len(),
        ensures
            match made {
                Ok(dict) => {
                    &&& forall|i: int| 0 <= i < slots@.len() ==> slots@[i] is Some
                    &&& dict@ == values_of(slots@)
                },
                Err(lacking) => {
                    &&& lacking@.len() > 0
                    &&& lacking@ == missing(names::<K>(), slots@, slots@.len() as int)
                },
            },
    {
        let ghost all = names::<K>();
        let mut lacking: Vec<&'static str> = Vec::new();
        let mut i: usize = 0;
        while i < slots.len()
            invariant
                i <= slots.len(),
                slots@.len() == K::VARIANTS@.len(),
                all == names::<K>(),
                lacking@.map_values(|name: &'static str| name@) == missing(all, slots@, i as int),
            decreases slots.len() - i,
        {
            let ghost before = lacking@.map_values(|name: &'static str| name@);
            if slots[i].is_none() {
                lacking.push(K::VARIANTS[i]);
                assert(lacking@.map_values(|name: &'static str| name@) =~= before.push(
                    K::VARIANTS@[i as int]@,
                ));
            }
            i += 1;
        }
        proof {
            lemma_missing_none(all, slots@, slots@.len() as int);
        }
        if lacking.len() > 0 {
            return Err(MissingKeys { names: lacking });
        }
        let ghost full = slots@;
        let mut inner: Vec<V> = Vec::new();
        for slot in iter: slots
            invariant
                iter.seq() == full,
                forall|k: int| 0 <= k < full.len() ==> full[k] is Some,
                inner@ == values_of(full).take(iter.index() as int),
        {
            let ghost before = inner@;
            match slot {
                Some(value) => {
                    inner.push(value);
                    assert(inner@ =~= values_of(full).take(iter.index() + 1));
                },
                None => {
                    assert(false);
                },
            }
        }
        assert(inner@ =~= values_of(full));
        Ok(RequiredDict { inner, phantom: PhantomData })
    }

    /// Reads a dictionary from the entries of a map, in whatever order they
    /// come. Entries that name no key are passed over, and of several entries
    /// for one key the last one stays. Where a key has no entry, the names of
    /// all such keys are handed back, in ordinal order.
    pub fn deserialize(entries: Vec<(String, V)>) -> (read: Result<Self, MissingKeys>)
        ensures
            match read {
                Ok(dict) => {
                    &&& forall|i: int|
                        0 <= i < names::<K>().len() ==> collected(
                            names::<K>(),
                            named(entries@),
                            entries@.len() as int,
                        )[i] is Some
                    &&& dict@ == values_of(
                        collected(names::<K>(), named(entries@), entries@.len() as int),
                    )
                },
                Err(lacking) => {
                    &&& lacking@.len() > 0
                    &&& lacking@ == missing(
                        names::<K>(),
                        collected(names::<K>(), named(entries@), entries@.len() as int),
                        names::<K>().len() as int,
                    )
                },
            },
    {
        let slots = DictVisitor::<K, V>::new().visit_map(entries);
        Self::from_slots(slots)
    }

    /// Writes the dictionary as the entries of a map: every key's canonical
    /// name with its value, in ordinal order.
    pub fn serialize(&self) -> (entries: Vec<(&'static str, &V)>)
        ensures
            plain(entries@) == written(
                names::<K>(),
                self@,
            ),
    {
        proof {
            use_type_invariant(self);
        }
        let ghost target = written(names::<K>(), self@);
        let mut entries: Vec<(&'static str, &V)> = Vec::new();
        let mut i: usize = 0;
        while i < self.inner.len()
            invariant
                i <= self.inner.len(),
                self.inner@.len() == K::VARIANTS@.len(),
                target == written(names::<K>(), self@),
                plain(entries@)
                    == target.take(i as int),
            decreases self.inner.len() - i,
        {
            let ghost before = plain(entries@);
            entries.push((K::VARIANTS[i], &self.inner[i]));
            assert(plain(entries@)
                =~= before.push((K::VARIANTS@[i as int]@, self.inner@[i as int])));
            assert(target.take(i + 1) =~= target.take(i as int).push(target[i as int]));
            i += 1;
        }
        assert(target.take(self.inner@.len() as int) =~= target);
        entries
    }

    /// The value of `key`.
    pub fn get(&self, key: K) -> (value: &V)
        ensures
            key.ordinal() < self@.len(),
            *value == self@[key.ordinal() as int],
    {
        proof {
            use_type_invariant(self);
        }
        &self.inner[key.variant_index()]
    }

    /// Replaces the value of `key`.
    pub fn set(&mut self, key: K, value: V)
        ensures
            key.ordinal() < old(self)@.len(),
            final(self)@ == old(self)@.update(key.ordinal() as int, value),
    {
        proof {
            use_type_invariant(&*self);
        }
        let index = key.variant_index();
        self.inner[index] = value;
    }
}

impl<K: DictKey, V: Default> Default for RequiredDict<K, V> {
    /// A dictionary that holds the default value of `V` for every key.
    fn default() -> (dict: Self)
        ensures
            dict@.len() == names::<K>().len(),
            forall|i: int| 0 <= i < dict@.len() ==> call_ensures(V::default, (), #[trigger] dict@[i]),
    {
        let mut inner: Vec<V> = Vec::new();
        let mut i: usize = 0;
        while i < K::VARIANTS.len()
            invariant
                i <= K::VARIANTS@.len(),
                inner@.len() == i,
                forall|k: int| 0 <= k < i ==> call_ensures(V::default, (), #[trigger] inner@[k]),
            decreases K::VARIANTS@.len() - i,
        {
            inner.push(V::default());
            i += 1;
        }
        RequiredDict { inner, phantom: PhantomData }
    }
}

impl<K: DictKey, V: Clone> Clone for RequiredDict<K, V> {
    /// A dictionary that holds a clone of every value.
    fn clone(&self) -> (copy: Self)
        ensures
            copy@.len() == self@.len(),
            forall|i: int| 0 <= i < self@.len() ==> cloned(self@[i], #[trigger] copy@[i]),
    {
        proof {
            use_type_invariant(self);
        }
        RequiredDict { inner: self.inner.clone(), phantom: PhantomData }
    }
}

impl<K: DictKey, V: PartialEq> PartialEq for RequiredDict<K, V> {
    /// Whether the two dictionaries hold equal values for every key.
    fn eq(&self, other: &Self) -> (same: bool) {
        self.inner == other.inner
    }
}

impl<K: DictKey, V: PartialEq> vstd::std_specs::cmp::PartialEqSpecImpl for RequiredDict<K, V> {
    open spec fn obeys_eq_spec() -> bool {
        V::obeys_eq_spec()
    }

    open spec fn eq_spec(&self, other: &Self) -> bool {
        &&& self@.len() == other@.len()
        &&& forall|i: int| 0 <= i < self@.len() ==> #[trigger] self@[i].eq_spec(&other@[i])
    }
}

impl<K: DictKey, V: Eq> Eq for RequiredDict<K, V> {

}

impl<K: DictKey, V: Display> RequiredDict<K, V> {
    /// Shows the dictionary: between braces, each entry that is written as
    /// its name, `: ` and what the `Display` of its value gives, with `, `
    /// ahead of the first entry.
    pub fn to_string(&self) -> (text: String)
        ensures
            exists|texts: Seq<String>| #[trigger] shows(written(names::<K>(), self@), texts, text@),
    {
        let entries = self.serialize();
        show(&entries)
    }
}

impl<K: DictKey, V> Index<K> for RequiredDict<K, V> {
    type Output = V;

    /// The value of `key`.
    fn index(&self, key: K) -> (value: &V)
        ensures
            key.ordinal() < self@.len(),
            *value == self@[key.ordinal() as int],
    {
        self.get(key)
    }
}

impl<K: DictKey, V> vstd::std_specs::core::IndexSpecImpl<K> for RequiredDict<K, V> {
    open spec fn index_req(&self, key: &K) -> bool {
        true
    }
}

impl<K: DictKey, V> IndexMut<K> for RequiredDict<K, V> {
    /// The place of the value of `key`.
    fn index_mut(&mut self, key: K) -> (value: &mut V)
        ensures
            key.ordinal() < old(self)@.len(),
            *value == old(self)@[key.ordinal() as int],
            final(self)@ == old(self)@.update(key.ordinal() as int, *final(value)),
    {
        proof {
            use_type_invariant(&*self);
        }
        let index = key.variant_index();
        &mut self.inner[index]
    }
}

} // verus!
