//! The description of a key that a derivation gives: what the code written
//! for the enum has to do.

use vstd::prelude::*;

use crate::text::same_text;

verus! {

/// One key: the variant it stands for and the name it goes by.
#[derive(Clone, Debug)]
pub struct KeyEntry {
    /// The variant's identifier.
    pub ident: String,
    /// The canonical name.
    pub name: String,
}

/// The keys of an enum, in declaration order.
#[derive(Clone, Debug)]
pub struct KeyDescriptor {
    /// The enum's identifier.
    pub ident: String,
    /// One entry per variant; an entry's position is its key's ordinal.
    pub entries: Vec<KeyEntry>,
}

/// Whether `index` is the first position at which `texts` holds `text`.
pub open spec fn first_at(texts: Seq<Seq<char>>, text: Seq<char>, index: int) -> bool {
    &&& 0 <= index < texts.len()
    &&& texts[index] == text
    &&& forall|k: int| 0 <= k < index ==> texts[k] != text
}

impl KeyDescriptor {
    /// The keys as pairs of identifier and canonical name, in ordinal order.
    pub open spec fn pairs(self) -> Seq<(Seq<char>, Seq<char>)> {
        self.entries@.map_values(|entry: KeyEntry| (entry.ident@, entry.name@))
    }

    /// The canonical names, in ordinal order.
    pub open spec fn names(self) -> Seq<Seq<char>> {
        self.entries@.map_values(|entry: KeyEntry| entry.name@)
    }

    /// The variants' identifiers, in ordinal order.
    pub open spec fn idents(self) -> Seq<Seq<char>> {
        self.entries@.map_values(|entry: KeyEntry| entry.ident@)
    }

    /// The number of keys.
    pub fn len(&self) -> (count: usize)
        ensures
            count == self.names().len(),
    {
        self.entries.len()
    }

    /// The canonical names, in ordinal order: the list of names that the
    /// key type is to offer.
    pub fn variants(&self) -> (names: Vec<&str>)
        ensures
            names@.map_values(|name: &str| name@) == self.names(),
    {
        let mut names: Vec<&str> = Vec::new();
        let mut i: usize = 0;
        while i < self.entries.len()
            invariant
                i <= self.entries.len(),
                names@.map_values(|name: &str| name@) == self.names().take(i as int),
            decreases self.entries.len() - i,
        {
            let ghost before = names@.map_values(|name: &str| name@);
            names.push(self.entries[i].name.as_str());
            assert(names@.map_values(|name: &str| name@) =~= before.push(
                self.entries@[i as int].name@,
            ));
            assert(self.names().take(i + 1) =~= self.names().take(i as int).push(
                self.entries@[i as int].name@,
            ));
            i += 1;
        }
        assert(self.names().take(self.entries@.len() as int) =~= self.names());
        names
    }

    /// The ordinal of the variant with identifier `ident`: its position in
    /// the declaration. None where the enum has no such variant.
    pub fn variant_index(&self, ident: &str) -> (ordinal: Option<usize>)
        ensures
            match ordinal {
                Some(index) => first_at(self.idents(), ident@, index as int),
                None => !self.idents().contains(ident@),
            },
    {
        let mut i: usize = 0;
        while i < self.entries.len()
            invariant
                i <= self.entries.len(),
                forall|k: int| 0 <= k < i ==> self.idents()[k] != ident@,
            decreases self.entries.len() - i,
        {
            if same_text(self.entries[i].ident.as_str(), ident) {
                return Some(i);
            }
            i += 1;
        }
        None
    }

    /// Reads a key from a string: the ordinal of the first key whose
    /// canonical name is exactly `name`, and an error without content where
    /// no key goes by that name.
    pub fn from_str(&self, name: &str) -> (parsed: Result<usize, ()>)
        ensures
            match parsed {
                Ok(index) => first_at(self.names(), name@, index as int),
                Err(_) => !self.names().contains(name@),
            },
    {
        let mut i: usize = 0;
        while i < self.entries.len()
            invariant
                i <= self.entries.len(),
                forall|k: int| 0 <= k < i ==> self.names()[k] != name@,
            decreases self.entries.len() - i,
        {
            if same_text(self.entries[i].name.as_str(), name) {
                return Ok(i);
            }
            i += 1;
        }
        Err(())
    }
}

/// Where no two variants share an identifier, the ordinals are a bijection
/// between the variants and the positions below their number: every
/// position is the ordinal of the variant declared there, and of no other.
pub proof fn lemma_ordinals_are_positions(key: KeyDescriptor, index: int)
    requires
        key.idents().no_duplicates(),
        0 <= index < key.idents().len(),
    ensures
        first_at(key.idents(), key.idents()[index], index),
        forall|other: int|
            first_at(key.idents(), key.idents()[index], other) ==> other == index,
{
}

/// Where no two keys share a canonical name, every key is read back from
/// its own name.
pub proof fn lemma_names_read_back(key: KeyDescriptor, index: int)
    requires
        key.names().no_duplicates(),
        0 <= index < key.names().len(),
    ensures
        first_at(key.names(), key.names()[index], index),
{
}

} // verus!
