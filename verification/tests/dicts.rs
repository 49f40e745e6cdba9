use enum_dict::dict_key::DictKey;
use enum_dict::dict_key::DictVisitor;
use enum_dict::optional_dict::OptionalDict;
use enum_dict::required_dict::RequiredDict;
use std::ops::IndexMut;

#[derive(Clone, Copy, Debug, PartialEq, Eq, PartialOrd, Ord, Hash)]
enum Key {
    A,
    B,
}

impl DictKey for Key {
    const VARIANTS: &'static [&'static str] = &["A", "B"];

    fn variant_index(self) -> usize {
        self as usize
    }
}

#[derive(Clone, Copy, Debug, PartialEq, Eq, PartialOrd, Ord, Hash)]
enum Twice {
    First,
    Second,
    Third,
}

impl DictKey for Twice {
    const VARIANTS: &'static [&'static str] = &["same", "other", "same"];

    fn variant_index(self) -> usize {
        self as usize
    }
}

#[derive(Clone, Copy, Debug, PartialEq, Eq, PartialOrd, Ord, Hash)]
enum Nothing {}

impl DictKey for Nothing {
    const VARIANTS: &'static [&'static str] = &[];

    fn variant_index(self) -> usize {
        match self {}
    }
}

fn entries(pairs: &[(&str, u32)]) -> Vec<(String, u32)> {
    pairs.iter().map(|(name, value)| (name.to_string(), *value)).collect()
}

fn owned(written: Vec<(&'static str, &u32)>) -> Vec<(String, u32)> {
    written.into_iter().map(|(name, value)| (name.to_string(), *value)).collect()
}

#[test]
fn required_reads_every_key() {
    let dict = RequiredDict::<Key, u32>::deserialize(entries(&[("B", 2), ("A", 1)])).unwrap();
    assert_eq!(dict.len(), 2);
    assert!(!dict.is_empty());
    assert_eq!(dict[Key::A], 1);
    assert_eq!(dict[Key::B], 2);
    assert_eq!(*dict.get(Key::A), 1);
}

#[test]
fn required_default_round_trip() {
    let dict = RequiredDict::<Key, u32>::default();
    assert_eq!(dict.len(), 2);
    assert_eq!(dict[Key::A], 0);
    assert_eq!(dict[Key::B], 0);
    let written = dict.serialize();
    assert_eq!(written, [("A", &0), ("B", &0)]);
    let read = RequiredDict::<Key, u32>::deserialize(owned(written)).unwrap();
    assert_eq!(read, dict);
}

#[test]
fn required_round_trip_of_any_values() {
    let mut dict = RequiredDict::<Key, u32>::default();
    dict[Key::A] = 17;
    dict.set(Key::B, 4);
    assert_eq!(dict.serialize(), [("A", &17), ("B", &4)]);
    let read = RequiredDict::<Key, u32>::deserialize(owned(dict.serialize())).unwrap();
    assert_eq!(read, dict);
    assert_eq!(read[Key::A], 17);
    assert_eq!(read[Key::B], 4);
}

#[test]
fn required_missing_keys_in_ordinal_order() {
    let lacking = RequiredDict::<Key, u32>::deserialize(entries(&[])).unwrap_err();
    assert_eq!(lacking.to_string(), "Missing keys: A, B");
    assert_eq!(lacking.names(), &["A", "B"]);
    let lacking = RequiredDict::<Key, u32>::deserialize(entries(&[("B", 1), ("a", 2), ("X", 3)])).unwrap_err();
    assert_eq!(lacking.to_string(), "Missing keys: A");
    let lacking = RequiredDict::<Key, u32>::deserialize(entries(&[("A", 1)])).unwrap_err();
    assert_eq!(lacking.to_string(), "Missing keys: B");
}

#[test]
fn required_last_entry_of_a_name_stays() {
    let dict = RequiredDict::<Key, u32>::deserialize(entries(&[("A", 1), ("B", 2), ("A", 3), ("Z", 9)])).unwrap();
    assert_eq!(dict[Key::A], 3);
    assert_eq!(dict[Key::B], 2);
}

#[test]
fn required_from_slots() {
    let dict = RequiredDict::<Key, u32>::from_slots(vec![Some(5), Some(6)]).unwrap();
    assert_eq!(dict[Key::A], 5);
    assert_eq!(dict[Key::B], 6);
    let lacking = RequiredDict::<Key, u32>::from_slots(vec![Some(5), None]).unwrap_err();
    assert_eq!(lacking.names(), &["B"]);
}

#[test]
fn required_over_no_keys() {
    let dict = RequiredDict::<Nothing, u32>::deserialize(entries(&[("A", 1)])).unwrap();
    assert_eq!(dict.len(), 0);
    assert!(dict.is_empty());
    assert_eq!(dict.serialize(), []);
}

#[test]
fn required_clone_and_compare() {
    let one = RequiredDict::<Key, u32>::deserialize(entries(&[("A", 1), ("B", 2)])).unwrap();
    let other = RequiredDict::<Key, u32>::deserialize(entries(&[("A", 1), ("B", 3)])).unwrap();
    assert_eq!(one.clone(), one);
    assert_ne!(one, other);
    assert!(one < other);
    assert_eq!(one.cmp(&other), std::cmp::Ordering::Less);
}

#[test]
fn required_index_mut() {
    let mut dict = RequiredDict::<Key, u32>::default();
    *dict.index_mut(Key::B) += 5;
    dict[Key::B] += 1;
    assert_eq!(dict[Key::A], 0);
    assert_eq!(dict[Key::B], 6);
    assert_eq!(dict.len(), 2);
}

#[test]
fn optional_passes_over_unknown_names() {
    let dict = OptionalDict::<Key, u32>::deserialize(entries(&[("A", 3), ("X", 4)]));
    assert_eq!(dict.len(), 1);
    assert!(!dict.is_empty());
    assert_eq!(dict[Key::A], Some(3));
    assert_eq!(dict[Key::B], None);
    assert_eq!(dict.serialize(), [("A", &3)]);
}

#[test]
fn optional_starts_empty() {
    let dict = OptionalDict::<Key, u32>::new();
    assert_eq!(dict.len(), 0);
    assert!(dict.is_empty());
    assert_eq!(dict[Key::A], None);
    assert_eq!(dict[Key::B], None);
    assert_eq!(dict.serialize(), []);
    assert_eq!(OptionalDict::<Key, u32>::default(), dict);
}

#[test]
fn optional_set_and_clear() {
    let mut dict = OptionalDict::<Key, u32>::new();
    dict[Key::B] = Some(9);
    assert_eq!(dict.len(), 1);
    assert_eq!(dict.serialize(), [("B", &9)]);
    dict.set(Key::A, Some(1));
    assert_eq!(dict.len(), 2);
    assert_eq!(dict.serialize(), [("A", &1), ("B", &9)]);
    *dict.index_mut(Key::B) = None;
    assert_eq!(dict.len(), 1);
    assert_eq!(*dict.get(Key::B), None);
    assert_eq!(dict.serialize(), [("A", &1)]);
}

#[test]
fn optional_round_trip() {
    for pairs in [&[][..], &[("A", 1)][..], &[("B", 2)][..], &[("A", 1), ("B", 2)][..]] {
        let dict = OptionalDict::<Key, u32>::deserialize(entries(pairs));
        assert_eq!(owned(dict.serialize()), entries(pairs));
        assert_eq!(OptionalDict::<Key, u32>::deserialize(owned(dict.serialize())), dict);
    }
}

#[test]
fn optional_from_keys() {
    let dict = OptionalDict::<Key, u32>::from_keys(vec![Key::A, Key::B], |key| match key {
        Key::B => Some(2),
        _ => None,
    });
    assert_eq!(dict[Key::A], None);
    assert_eq!(dict[Key::B], Some(2));
    assert_eq!(dict.len(), 1);
}

#[test]
fn optional_from_slots_and_clone() {
    let dict = OptionalDict::<Key, u32>::from_slots(vec![None, Some(4)]);
    assert_eq!(dict[Key::B], Some(4));
    assert_eq!(dict.clone(), dict);
    assert!(OptionalDict::<Key, u32>::new() < dict);
}

#[test]
fn visitor_reads_entry_by_entry() {
    let visitor = DictVisitor::<Key, u32>::new();
    assert_eq!(visitor.expecting(), "a map with optional keys");
    assert_eq!(visitor.slot("A"), Some(0));
    assert_eq!(visitor.slot("B"), Some(1));
    assert_eq!(visitor.slot("a"), None);
    assert_eq!(visitor.slot("A "), None);
    let mut slots = visitor.start();
    assert_eq!(slots, [None, None]);
    visitor.visit_entry(&mut slots, "B", 1);
    assert_eq!(slots, [None, Some(1)]);
    visitor.visit_entry(&mut slots, "C", 2);
    assert_eq!(slots, [None, Some(1)]);
    visitor.visit_entry(&mut slots, "B", 3);
    assert_eq!(slots, [None, Some(3)]);
    assert_eq!(visitor.visit_map(entries(&[("A", 1), ("A", 2)])), [Some(2), None]);
}

#[test]
fn shared_name_goes_to_the_last_key() {
    let visitor = DictVisitor::<Twice, u32>::new();
    assert_eq!(visitor.slot("same"), Some(2));
    assert_eq!(visitor.slot("other"), Some(1));
    let dict = OptionalDict::<Twice, u32>::deserialize(entries(&[("same", 1), ("other", 2)]));
    assert_eq!(dict[Twice::First], None);
    assert_eq!(dict[Twice::Second], Some(2));
    assert_eq!(dict[Twice::Third], Some(1));
    let lacking = RequiredDict::<Twice, u32>::deserialize(entries(&[("same", 1), ("other", 2)])).unwrap_err();
    assert_eq!(lacking.to_string(), "Missing keys: same");
}

#[test]
fn required_shown() {
    let dict = RequiredDict::<Key, u32>::deserialize(entries(&[("A", 1), ("B", 2)])).unwrap();
    assert_eq!(dict.to_string(), "{, A: 1B: 2}");
    let none = RequiredDict::<Nothing, u32>::default();
    assert_eq!(none.to_string(), "{}");
}

#[test]
fn optional_shown() {
    let mut dict = OptionalDict::<Key, u32>::new();
    assert_eq!(dict.to_string(), "{}");
    dict[Key::B] = Some(3);
    assert_eq!(dict.to_string(), "{, B: 3}");
    dict[Key::A] = Some(4);
    assert_eq!(dict.to_string(), "{, A: 4B: 3}");
}

#[test]
fn written_keys_do_not_touch_others() {
    let mut dict = RequiredDict::<Key, u32>::deserialize(entries(&[("A", 1), ("B", 2)])).unwrap();
    dict.set(Key::A, 10);
    assert_eq!(dict[Key::A], 10);
    assert_eq!(dict[Key::B], 2);
    let mut dict = OptionalDict::<Key, u32>::deserialize(entries(&[("B", 2)]));
    dict.set(Key::A, Some(10));
    assert_eq!(dict[Key::A], Some(10));
    assert_eq!(dict[Key::B], Some(2));
}
