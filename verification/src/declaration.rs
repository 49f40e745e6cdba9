//! What the derivation reads of an enum declaration.

use vstd::prelude::*;

verus! {

/// One token of an attribute's argument list.
#[derive(Clone, Debug)]
pub enum Token {
    /// An identifier.
    Ident(String),
    /// A lone `=`.
    Equals,
    /// A `,`.
    Comma,
    /// A string literal, with the text it stands for.
    Literal(String),
    /// Anything else, a bracketed group included.
    Other,
}

/// The shape of an attribute after its path.
#[derive(Clone, Debug)]
pub enum Meta {
    /// Nothing follows the path.
    Path,
    /// A delimited list follows; these are the tokens between its delimiters.
    List(Vec<Token>),
    /// `= value` follows.
    NameValue,
}

/// An attribute of the declaration or of one of its variants.
#[derive(Clone, Debug)]
pub struct Attribute {
    /// The path as written; a lone identifier where it is one.
    pub path: String,
    /// What follows the path.
    pub meta: Meta,
}

/// What data a variant carries.
#[derive(Copy, Clone, PartialEq, Eq, Debug, Structural)]
pub enum Fields {
    /// None.
    Unit,
    /// Named fields.
    Named,
    /// Positional fields.
    Unnamed,
}

/// One variant of an enum declaration.
#[derive(Clone, Debug)]
pub struct Variant {
    /// The variant's identifier.
    pub ident: String,
    /// The data it carries.
    pub fields: Fields,
    /// Its attributes, in source order.
    pub attrs: Vec<Attribute>,
}

/// The body of a declaration.
#[derive(Clone, Debug)]
pub enum Shape {
    /// An enum, with its variants in declaration order. None of them has a
    /// discriminant of its own: a variant's position is its number.
    Enum(Vec<Variant>),
    /// A struct.
    Struct,
    /// A union.
    Union,
}

/// A type declaration that a key is to be derived for.
#[derive(Clone, Debug)]
pub struct Declaration {
    /// The type's identifier.
    pub ident: String,
    /// The attributes on the declaration itself, in source order.
    pub attrs: Vec<Attribute>,
    /// Its body.
    pub shape: Shape,
}

impl Attribute {
    /// Whether the attribute addresses this crate: its path is exactly
    /// `enum_dict`.
    pub open spec fn is_ours(self) -> bool {
        self.path@ == "enum_dict"@
    }

    /// The tokens of the attribute's list, or none where it has no list.
    pub open spec fn tokens(self) -> Seq<Token> {
        match self.meta {
            Meta::List(tokens) => tokens@,
            _ => Seq::empty(),
        }
    }
}

impl Declaration {
    /// The variants, or none where the declaration is no enum.
    pub open spec fn variants(self) -> Seq<Variant> {
        match self.shape {
            Shape::Enum(variants) => variants@,
            _ => Seq::empty(),
        }
    }
}

} // verus!
