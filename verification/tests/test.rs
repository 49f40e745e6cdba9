use std::fmt;
use std::marker::PhantomData;

use enum_dict::dict_key::DictVisitor;
use enum_dict::DictKey;
use enum_dict::OptionalDict;
use enum_dict::RequiredDict;
use serde::de::Error;
use serde::de::MapAccess;
use serde::de::Visitor;
use serde::ser::SerializeMap;
use serde::Deserialize;
use serde::Deserializer;
use serde::Serialize;
use serde::Serializer;

#[derive(Clone, Copy, Debug, PartialEq, Eq, PartialOrd, Ord, Hash)]
enum Key {
    A,
    B,
}

impl DictKey for Key {
    const VARIANTS: &'static [&'static str] = &["A", "B"];

    fn variant_index(self) -> usize {
        self as usize
    }
}

struct Slots<K, V>(DictVisitor<K, V>);

impl<'de, K: DictKey, V: Deserialize<'de>> Visitor<'de> for Slots<K, V> {
    type Value = Vec<Option<V>>;

    fn expecting(&self, formatter: &mut fmt::Formatter) -> fmt::Result {
        formatter.write_str(self.0.expecting())
    }

    fn visit_map<A: MapAccess<'de>>(self, mut map: A) -> Result<Self::Value, A::Error> {
        let mut slots = self.0.start();
        while let Some((key, value)) = map.next_entry::<String, V>()? {
            self.0.visit_entry(&mut slots, &key, value);
        }
        Ok(slots)
    }
}

#[derive(Debug)]
struct Required(RequiredDict<Key, u32>);

#[derive(Debug)]
struct Optional(OptionalDict<Key, u32>);

impl<'de> Deserialize<'de> for Required {
    fn deserialize<D: Deserializer<'de>>(deserializer: D) -> Result<Self, D::Error> {
        let slots = deserializer.deserialize_map(Slots(DictVisitor::<Key, u32>::new()))?;
        match RequiredDict::from_slots(slots) {
            Ok(dict) => Ok(Required(dict)),
            Err(lacking) => Err(D::Error::custom(lacking.to_string())),
        }
    }
}

impl<'de> Deserialize<'de> for Optional {
    fn deserialize<D: Deserializer<'de>>(deserializer: D) -> Result<Self, D::Error> {
        let slots = deserializer.deserialize_map(Slots(DictVisitor::<Key, u32>::new()))?;
        Ok(Optional(OptionalDict::from_slots(slots)))
    }
}

fn write_entries<S: Serializer>(entries: Vec<(&'static str, &u32)>, serializer: S) -> Result<S::Ok, S::Error> {
    let mut map = serializer.serialize_map(Some(entries.len()))?;
    for (name, value) in entries {
        map.serialize_entry(name, value)?;
    }
    map.end()
}

impl Serialize for Required {
    fn serialize<S: Serializer>(&self, serializer: S) -> Result<S::Ok, S::Error> {
        write_entries(self.0.serialize(), serializer)
    }
}

impl Serialize for Optional {
    fn serialize<S: Serializer>(&self, serializer: S) -> Result<S::Ok, S::Error> {
        write_entries(self.0.serialize(), serializer)
    }
}

#[derive(Debug)]
struct Data {
    required: RequiredDict<Key, u32>,
    optional: OptionalDict<Key, u32>,
}

struct DataVisitor(PhantomData<Data>);

impl<'de> Visitor<'de> for DataVisitor {
    type Value = Data;

    fn expecting(&self, formatter: &mut fmt::Formatter) -> fmt::Result {
        formatter.write_str("struct Data")
    }

    fn visit_map<A: MapAccess<'de>>(self, mut map: A) -> Result<Data, A::Error> {
        let mut required: Option<Required> = None;
        let mut optional: Option<Optional> = None;
        while let Some(field) = map.next_key::<String>()? {
            match field.as_str() {
                "required" => required = Some(map.next_value()?),
                "optional" => optional = Some(map.next_value()?),
                _ => {
                    map.next_value::<serde::de::IgnoredAny>()?;
                }
            }
        }
        let required = required.ok_or_else(|| A::Error::missing_field("required"))?;
        let optional = optional.ok_or_else(|| A::Error::missing_field("optional"))?;
        Ok(Data { required: required.0, optional: optional.0 })
    }
}

impl<'de> Deserialize<'de> for Data {
    fn deserialize<D: Deserializer<'de>>(deserializer: D) -> Result<Self, D::Error> {
        deserializer.deserialize_struct("Data", &["required", "optional"], DataVisitor(PhantomData))
    }
}

struct RequiredRef<'a>(&'a RequiredDict<Key, u32>);

struct OptionalRef<'a>(&'a OptionalDict<Key, u32>);

impl<'a> Serialize for RequiredRef<'a> {
    fn serialize<S: Serializer>(&self, serializer: S) -> Result<S::Ok, S::Error> {
        write_entries(self.0.serialize(), serializer)
    }
}

impl<'a> Serialize for OptionalRef<'a> {
    fn serialize<S: Serializer>(&self, serializer: S) -> Result<S::Ok, S::Error> {
        write_entries(self.0.serialize(), serializer)
    }
}

impl Serialize for Data {
    fn serialize<S: Serializer>(&self, serializer: S) -> Result<S::Ok, S::Error> {
        let mut map = serializer.serialize_map(Some(2))?;
        map.serialize_entry("required", &RequiredRef(&self.required))?;
        map.serialize_entry("optional", &OptionalRef(&self.optional))?;
        map.end()
    }
}

#[test]
fn test_serde() {
    let json = r#"{
        "required": {
            "A": 1,
            "B": 2
        },
        "optional": {
            "A": 3,
            "X": 4
        }
    }"#;

    let data: Data = serde_json::from_str(json).unwrap();

    assert_eq!(data.required.len(), 2);
    assert_eq!(data.required[Key::A], 1);
    assert_eq!(data.required[Key::B], 2);
    assert_eq!(data.optional.len(), 1);
    assert_eq!(data.optional[Key::A], Some(3));
    assert_eq!(data.optional[Key::B], None);

    assert_eq!(
        serde_json::to_string(&data).unwrap(),
        r#"{"required":{"A":1,"B":2},"optional":{"A":3}}"#
    );
}

#[test]
fn test_validate() {
    let json = r#"{
        "required": {},
        "optional": {
            "A": 3
        }
    }"#;

    let err = serde_json::from_str::<Data>(json).unwrap_err();
    assert_eq!(err.to_string(), "Missing keys: A, B at line 2 column 22");
}

#[test]
fn required_from_serialized_map_keeps_last_of_duplicates() {
    let read: Required = serde_json::from_str(r#"{"B": 1, "A": 2, "B": 3, "C": 4}"#).unwrap();
    assert_eq!(read.0[Key::A], 2);
    assert_eq!(read.0[Key::B], 3);
    assert_eq!(serde_json::to_string(&read).unwrap(), r#"{"A":2,"B":3}"#);
}

#[test]
fn optional_round_trip_through_json() {
    let read: Optional = serde_json::from_str(r#"{"B": 7}"#).unwrap();
    let text = serde_json::to_string(&read).unwrap();
    assert_eq!(text, r#"{"B":7}"#);
    let again: Optional = serde_json::from_str(&text).unwrap();
    assert_eq!(again.0, read.0);
}
