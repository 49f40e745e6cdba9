//! Dense dictionaries keyed by the variants of an enum, and the derivation
//! rules that turn an enum declaration into such a key.

pub mod attribute;
pub mod case;
pub mod declaration;
pub mod derive;
pub mod derive_lemmas;
pub mod descriptor;
pub mod dict_key;
pub mod dict_lemmas;
pub mod optional_dict;
pub mod required_dict;
pub mod text;

pub use dict_key::DictKey;
pub use optional_dict::OptionalDict;
pub use required_dict::RequiredDict;
