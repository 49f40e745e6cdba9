//! The capability a type needs to key a dense dictionary, and the reading of
//! named entries into the slots of one.

use std::marker::PhantomData;
use vstd::prelude::*;

use crate::text::same_text;

verus! {

/// A closed set of keys, each with an ordinal and a canonical name.
///
/// The ordinals of the keys are the positions of their names in `VARIANTS`.
pub trait DictKey: Sized {
    /// The canonical names, one per key, in ordinal order.
    const VARIANTS: &'static [&'static str];

    /// The ordinal of a key: its position in `VARIANTS`. An implementation
    /// states it for its keys; the default is the ordinal of the one key of
    /// a type that has no other.
    open spec fn ordinal(self) -> nat {
        0
    }

    /// The ordinal of this key.
    fn variant_index(self) -> (index: usize)
        ensures
            index == self.ordinal(),
            index < Self::VARIANTS@.len(),
    ;
}

/// Reads the entries of a map into one slot per key of `K`.
pub struct DictVisitor<K, V> {
    phantom: PhantomData<(K, V)>,
}

/// The canonical names of `K`, in ordinal order.
pub open spec fn names<K: DictKey>() -> Seq<Seq<char>> {
    K::VARIANTS@.map_values(|name: &'static str| name@)
}

/// Whether the ordinals of `K` pair its keys off with the positions of its
/// names: no two keys share an ordinal, every ordinal is a position, and
/// every position is the ordinal of a key.
pub open spec fn ordinals_pair_off<K: DictKey>() -> bool {
    &&& forall|a: K, b: K| #[trigger] a.ordinal() == #[trigger] b.ordinal() ==> a == b
    &&& forall|a: K| #[trigger] a.ordinal() < names::<K>().len()
    &&& forall|i: nat| i < names::<K>().len() ==> #[trigger] is_ordinal::<K>(i)
}

/// Whether `i` is the ordinal of a key of `K`.
pub open spec fn is_ordinal<K: DictKey>(i: nat) -> bool {
    exists|a: K| #[trigger] a.ordinal() == i
}

/// The slot that an entry named `key` goes to: the last ordinal whose
/// canonical name is exactly `key`. None where no key goes by that name.
pub open spec fn slot_of(names: Seq<Seq<char>>, key: Seq<char>) -> Option<int>
    decreases names.len(),
{
    if names.len() == 0 {
        None
    } else if names.last() == key {
        Some(names.len() - 1)
    } else {
        slot_of(names.drop_last(), key)
    }
}

/// One slot per name, each of them empty.
pub open spec fn empty_slots<V>(names: Seq<Seq<char>>) -> Seq<Option<V>> {
    Seq::new(names.len(), |i: int| None::<V>)
}

/// The slots after the entry `key: value` has been read into them. An entry
/// whose name no key goes by changes nothing; one whose slot is taken
/// replaces what the slot held.
pub open spec fn stored<V>(
    names: Seq<Seq<char>>,
    slots: Seq<Option<V>>,
    key: Seq<char>,
    value: V,
) -> Seq<Option<V>> {
    match slot_of(names, key) {
        Some(slot) => slots.update(slot, Some(value)),
        None => slots,
    }
}

/// The slots after the first `n` of `entries` have been read, in order, into
/// slots that start empty.
pub open spec fn collected<V>(names: Seq<Seq<char>>, entries: Seq<(Seq<char>, V)>, n: int) -> Seq<
    Option<V>,
>
    decreases n,
{
    if n <= 0 {
        empty_slots(names)
    } else {
        stored(names, collected(names, entries, n - 1), entries[n - 1].0, entries[n - 1].1)
    }
}

/// The entries of a map as pairs of name and value.
pub open spec fn named<V>(entries: Seq<(String, V)>) -> Seq<(Seq<char>, V)> {
    entries.map_values(|entry: (String, V)| (entry.0@, entry.1))
}

/// A slot is the last place at which its name stands, and a name that has no
/// slot stands nowhere.
pub proof fn lemma_slot_of(names: Seq<Seq<char>>, key: Seq<char>)
    ensures
        match slot_of(names, key) {
            Some(slot) => {
                &&& 0 <= slot < names.len()
                &&& names[slot] == key
                &&& forall|k: int| slot < k < names.len() ==> names[k] != key
            },
            None => forall|k: int| 0 <= k < names.len() ==> names[k] != key,
        },
    decreases names.len(),
{
    if names.len() > 0 && names.last() != key {
        let shorter = names.drop_last();
        lemma_slot_of(shorter, key);
        assert forall|k: int| 0 <= k < shorter.len() implies shorter[k] == names[k] by {}
        match slot_of(shorter, key) {
            Some(slot) => {
                assert forall|k: int| slot < k < names.len() implies names[k] != key by {
                    if k < shorter.len() {
                        assert(shorter[k] != key);
                    }
                }
            },
            None => {
                assert forall|k: int| 0 <= k < names.len() implies names[k] != key by {
                    if k < shorter.len() {
                        assert(shorter[k] != key);
                    }
                }
            },
        }
    }
}

/// Reading entries keeps one slot per name.
pub proof fn lemma_collected_len<V>(names: Seq<Seq<char>>, entries: Seq<(Seq<char>, V)>, n: int)
    ensures
        collected(names, entries, n).len() == names.len(),
    decreases n,
{
    if n > 0 {
        lemma_collected_len(names, entries, n - 1);
        lemma_slot_of(names, entries[n - 1].0);
    }
}

impl<K, V> DictVisitor<K, V> {
    /// A visitor for dictionaries keyed by `K`.
    pub fn new() -> Self {
        DictVisitor { phantom: PhantomData }
    }

    /// What the visitor reads.
    pub fn expecting(&self) -> (words: &'static str)
        ensures
            words@ == "a map with optional keys"@,
    {
        "a map with optional keys"
    }
}

impl<K: DictKey, V> DictVisitor<K, V> {
    /// The slot that an entry named `key` goes to, if a key goes by that
    /// name.
    pub fn slot(&self, key: &str) -> (slot: Option<usize>)
        ensures
            match slot {
                Some(index) => slot_of(names::<K>(), key@) == Some(index as int),
                None => slot_of(names::<K>(), key@) is None,
            },
    {
        let ghost all = names::<K>();
        let mut i: usize = K::VARIANTS.len();
        assert(all.take(i as int) =~= all);
        while i > 0
            invariant
                i <= K::VARIANTS@.len(),
                all == names::<K>(),
                slot_of(all, key@) == slot_of(all.take(i as int), key@),
            decreases i,
        {
            proof {
                assert(all.take(i as int).drop_last() =~= all.take(i - 1));
                assert(all.take(i as int).last() == K::VARIANTS@[i - 1]@);
            }
            if same_text(K::VARIANTS[i - 1], key) {
                return Some(i - 1);
            }
            i -= 1;
        }
        None
    }

    /// One empty slot per key.
    pub fn start(&self) -> (slots: Vec<Option<V>>)
        ensures
            slots@ == empty_slots::<V>(names::<K>()),
    {
        let mut slots: Vec<Option<V>> = Vec::new();
        let mut i: usize = 0;
        while i < K::VARIANTS.len()
            invariant
                i <= K::VARIANTS@.len(),
                slots@.len() == i,
                forall|k: int| 0 <= k < i ==> slots@[k] == None::<V>,
            decreases K::VARIANTS@.len() - i,
        {
            slots.push(None);
            i += 1;
        }
        assert(slots@ =~= empty_slots::<V>(names::<K>()));
        slots
    }

    /// Reads one entry into the slots.
    pub fn visit_entry(&self, slots: &mut Vec<Option<V>>, key: &str, value: V)
        requires
            old(slots)@.len() == names::<K>().len(),
        ensures
            final(slots)@ == stored(names::<K>(), old(slots)@, key@, value),
    {
        match self.slot(key) {
            Some(index) => {
                proof {
                    lemma_slot_of(names::<K>(), key@);
                }
                slots.set(index, Some(value));
            },
            None => {},
        }
    }

    /// Reads the entries of a map, in the order in which they come, into one
    /// slot per key.
    pub fn visit_map(self, entries: Vec<(String, V)>) -> (slots: Vec<Option<V>>)
        ensures
            slots@ == collected(names::<K>(), named(entries@), entries@.len() as int),
            slots@.len() == names::<K>().len(),
    {
        let ghost all = named(entries@);
        let mut slots = self.start();
        for entry in iter: entries
            invariant
                all == named(iter.seq()),
                slots@ == collected(names::<K>(), all, iter.index() as int),
        {
            proof {
                lemma_collected_len(names::<K>(), all, iter.index() as int);
            }
            let (key, value) = entry;
            self.visit_entry(&mut slots, key.as_str(), value);
        }
        proof {
            lemma_collected_len(names::<K>(), all, entries@.len() as int);
        }
        slots
    }
}

} // verus!
