//! What holds of every dictionary that is read from, or written as, the
//! entries of a map.

use vstd::prelude::*;

use crate::dict_key::collected;
use crate::dict_key::names;
use crate::dict_key::ordinals_pair_off;
use crate::dict_key::DictKey;
use crate::dict_key::lemma_collected_len;
use crate::dict_key::lemma_slot_of;
use crate::dict_key::slot_of;
use crate::optional_dict::lemma_present_len;
use crate::optional_dict::present;
use crate::optional_dict::present_count;
use crate::required_dict::lemma_missing_none;
use crate::required_dict::missing;
use crate::required_dict::values_of;
use crate::required_dict::written;

verus! {

/// Where the ordinals pair the keys off with the slots, replacing what one
/// key holds changes that key's slot and leaves every other key's slot as it
/// was.
pub proof fn lemma_keys_do_not_interfere<K: DictKey, V>(
    slots: Seq<V>,
    written: K,
    other: K,
    value: V,
)
    requires
        ordinals_pair_off::<K>(),
        slots.len() == names::<K>().len(),
        written != other,
    ensures
        slots.update(written.ordinal() as int, value)[written.ordinal() as int] == value,
        slots.update(written.ordinal() as int, value)[other.ordinal() as int]
            == slots[other.ordinal() as int],
{
}

/// Where no two keys share a canonical name, every name's slot is its own
/// position.
pub proof fn lemma_slot_of_distinct(names: Seq<Seq<char>>, index: int)
    requires
        names.no_duplicates(),
        0 <= index < names.len(),
    ensures
        slot_of(names, names[index]) == Some(index),
{
    lemma_slot_of(names, names[index]);
}

/// A slot that no entry goes to stays empty.
pub proof fn lemma_untouched_slot_empty<V>(
    names: Seq<Seq<char>>,
    entries: Seq<(Seq<char>, V)>,
    n: int,
    slot: int,
)
    requires
        0 <= n <= entries.len(),
        0 <= slot < names.len(),
        forall|k: int| 0 <= k < n ==> slot_of(names, #[trigger] entries[k].0) != Some(slot),
    ensures
        collected(names, entries, n)[slot] is None,
    decreases n,
{
    if n > 0 {
        lemma_untouched_slot_empty(names, entries, n - 1, slot);
        lemma_collected_len(names, entries, n - 1);
        lemma_slot_of(names, entries[n - 1].0);
        assert(slot_of(names, entries[n - 1].0) != Some(slot));
    }
}

/// A slot holds the value of the last entry that goes to it: entries for
/// other slots, and entries that name no key, do not touch it.
pub proof fn lemma_last_entry_stays<V>(
    names: Seq<Seq<char>>,
    entries: Seq<(Seq<char>, V)>,
    n: int,
    slot: int,
    last: int,
)
    requires
        0 <= last < n <= entries.len(),
        slot_of(names, entries[last].0) == Some(slot),
        forall|k: int| last < k < n ==> slot_of(names, #[trigger] entries[k].0) != Some(slot),
    ensures
        collected(names, entries, n)[slot] == Some(entries[last].1),
    decreases n,
{
    lemma_collected_len(names, entries, n - 1);
    lemma_slot_of(names, entries[n - 1].0);
    lemma_slot_of(names, entries[last].0);
    if last < n - 1 {
        lemma_last_entry_stays(names, entries, n - 1, slot, last);
        assert(slot_of(names, entries[n - 1].0) != Some(slot));
    }
}

/// Reading goes entry by entry: what the first `n` entries give does not
/// depend on what follows them.
pub proof fn lemma_collected_prefix<V>(
    names: Seq<Seq<char>>,
    entries: Seq<(Seq<char>, V)>,
    longer: Seq<(Seq<char>, V)>,
    n: int,
)
    requires
        0 <= n <= entries.len() <= longer.len(),
        forall|k: int| 0 <= k < entries.len() ==> entries[k] == longer[k],
    ensures
        collected(names, entries, n) == collected(names, longer, n),
    decreases n,
{
    if n > 0 {
        lemma_collected_prefix(names, entries, longer, n - 1);
    }
}

/// After the first `n` entries of what a required dictionary is written as
/// have been read, the first `n` slots hold the values and the rest is
/// empty.
proof fn lemma_written_read_partly<V>(names: Seq<Seq<char>>, values: Seq<V>, n: int)
    requires
        names.no_duplicates(),
        values.len() == names.len(),
        0 <= n <= names.len(),
    ensures
        collected(names, written(names, values), n) == Seq::new(
            names.len(),
            |i: int|
                if i < n {
                    Some(values[i])
                } else {
                    None
                },
        ),
    decreases n,
{
    let entries = written(names, values);
    let target = Seq::new(
        names.len(),
        |i: int|
            if i < n {
                Some(values[i])
            } else {
                None
            },
    );
    if n > 0 {
        lemma_written_read_partly(names, values, n - 1);
        lemma_slot_of_distinct(names, n - 1);
        assert(collected(names, entries, n) =~= target);
    } else {
        assert(collected(names, entries, n) =~= target);
    }
}

/// Writing a required dictionary and reading the entries back gives the same
/// dictionary, where no two keys share a canonical name: every slot is full,
/// nothing is missing, and the values are the ones that were written.
pub proof fn lemma_required_round_trip<V>(names: Seq<Seq<char>>, values: Seq<V>)
    requires
        names.no_duplicates(),
        values.len() == names.len(),
    ensures
        forall|i: int|
            0 <= i < names.len() ==> (#[trigger] collected(
                names,
                written(names, values),
                written(names, values).len() as int,
            )[i]) is Some,
        missing(
            names,
            collected(names, written(names, values), written(names, values).len() as int),
            names.len() as int,
        ).len() == 0,
        values_of(
            collected(names, written(names, values), written(names, values).len() as int),
        ) == values,
{
    let entries = written(names, values);
    let slots = collected(names, entries, entries.len() as int);
    lemma_written_read_partly(names, values, names.len() as int);
    lemma_missing_none(names, slots, names.len() as int);
    assert(values_of(slots) =~= values);
}

/// After what the first `n` slots are written as has been read, the first `n`
/// slots are as they were and the rest is empty.
proof fn lemma_present_read_partly<V>(names: Seq<Seq<char>>, slots: Seq<Option<V>>, n: int)
    requires
        names.no_duplicates(),
        slots.len() == names.len(),
        0 <= n <= names.len(),
    ensures
        collected(names, present(names, slots, n), present(names, slots, n).len() as int)
            == Seq::new(
            names.len(),
            |i: int|
                if i < n {
                    slots[i]
                } else {
                    None
                },
        ),
    decreases n,
{
    let entries = present(names, slots, n);
    let target = Seq::new(
        names.len(),
        |i: int|
            if i < n {
                slots[i]
            } else {
                None
            },
    );
    if n > 0 {
        let shorter = present(names, slots, n - 1);
        lemma_present_read_partly(names, slots, n - 1);
        if slots[n - 1] is Some {
            lemma_collected_prefix(names, shorter, entries, shorter.len() as int);
            lemma_slot_of_distinct(names, n - 1);
            assert(collected(names, entries, entries.len() as int) =~= target);
        } else {
            assert(collected(names, entries, entries.len() as int) =~= target);
        }
    } else {
        assert(collected(names, entries, entries.len() as int) =~= target);
    }
}

/// Writing an optional dictionary and reading the entries back gives the
/// same dictionary, where no two keys share a canonical name.
pub proof fn lemma_optional_round_trip<V>(names: Seq<Seq<char>>, slots: Seq<Option<V>>)
    requires
        names.no_duplicates(),
        slots.len() == names.len(),
    ensures
        collected(
            names,
            present(names, slots, slots.len() as int),
            present(names, slots, slots.len() as int).len() as int,
        ) == slots,
{
    lemma_present_read_partly(names, slots, names.len() as int);
    assert(Seq::new(
        names.len(),
        |i: int|
            if i < names.len() {
                slots[i]
            } else {
                None
            },
    ) =~= slots);
}

/// Only full slots are written: every entry carries the name and the value
/// of a full slot, and the entries come in ordinal order.
pub proof fn lemma_present_entries<V>(names: Seq<Seq<char>>, slots: Seq<Option<V>>, n: int, k: int)
    requires
        0 <= n <= slots.len(),
        0 <= k < present(names, slots, n).len(),
    ensures
        exists|i: int|
            0 <= i < n && slots[i] is Some && present(names, slots, n)[k] == (
                names[i],
                slots[i]->Some_0,
            ) && #[trigger] present_count(slots, i) == k,
    decreases n,
{
    lemma_present_len(names, slots, n);
    lemma_present_len(names, slots, n - 1);
    if slots[n - 1] is Some && k == present(names, slots, n - 1).len() {
        assert(present(names, slots, n)[k] == (names[n - 1], slots[n - 1]->Some_0));
    } else {
        lemma_present_entries(names, slots, n - 1, k);
        let i = choose|i: int|
            0 <= i < n - 1 && slots[i] is Some && present(names, slots, n - 1)[k] == (
                names[i],
                slots[i]->Some_0,
            ) && #[trigger] present_count(slots, i) == k;
        assert(present(names, slots, n)[k] == (names[i], slots[i]->Some_0));
    }
}

} // verus!
