//! Case conventions for canonical key names.

use heck::ToKebabCase;
use heck::ToLowerCamelCase;
use heck::ToShoutyKebabCase;
use heck::ToShoutySnakeCase;
use heck::ToSnakeCase;
use heck::ToUpperCamelCase;
use vstd::prelude::*;
use vstd::string::StringExecFns;

use crate::text::debug_quote;
use crate::text::debug_quoted;
use crate::text::same_text;

verus! {

/// A convention for turning a variant identifier into its canonical name.
#[derive(Copy, Clone, PartialEq, Eq, Debug, Structural)]
pub enum RenameRule {
    /// Keep the identifier as written.
    Identity,
    /// `lowercase`
    LowerCase,
    /// `UPPERCASE`
    UpperCase,
    /// `PascalCase`
    PascalCase,
    /// `camelCase`
    CamelCase,
    /// `snake_case`
    SnakeCase,
    /// `SCREAMING_SNAKE_CASE`
    ScreamingSnakeCase,
    /// `kebab-case`
    KebabCase,
    /// `SCREAMING-KEBAB-CASE`
    ScreamingKebabCase,
}

/// A rule identifier that names no rule.
#[derive(Copy, Clone, Debug)]
pub struct ParseError<'a> {
    unknown: &'a str,
}

/// What heck's upper camel case conversion makes of `name`.
pub uninterp spec fn upper_camel_case(name: Seq<char>) -> Seq<char>;

/// What heck's lower camel case conversion makes of `name`.
pub uninterp spec fn lower_camel_case(name: Seq<char>) -> Seq<char>;

/// What heck's snake case conversion makes of `name`.
pub uninterp spec fn snake_case(name: Seq<char>) -> Seq<char>;

/// What heck's shouty snake case conversion makes of `name`.
pub uninterp spec fn shouty_snake_case(name: Seq<char>) -> Seq<char>;

/// What heck's kebab case conversion makes of `name`.
pub uninterp spec fn kebab_case(name: Seq<char>) -> Seq<char>;

/// What heck's shouty kebab case conversion makes of `name`.
pub uninterp spec fn shouty_kebab_case(name: Seq<char>) -> Seq<char>;

/// `c` with an ASCII capital letter replaced by its small letter.
pub open spec fn ascii_lower(c: char) -> char {
    if 'A' <= c && c <= 'Z' {
        ((c as u8) + 32) as char
    } else {
        c
    }
}

/// `c` with an ASCII small letter replaced by its capital letter.
pub open spec fn ascii_upper(c: char) -> char {
    if 'a' <= c && c <= 'z' {
        ((c as u8) - 32) as char
    } else {
        c
    }
}

/// The identifiers of the rules that have one, in the order in which they are
/// listed to the user.
pub open spec fn rule_identifiers() -> Seq<Seq<char>> {
    seq![
        "lowercase"@,
        "UPPERCASE"@,
        "PascalCase"@,
        "camelCase"@,
        "snake_case"@,
        "SCREAMING_SNAKE_CASE"@,
        "kebab-case"@,
        "SCREAMING-KEBAB-CASE"@,
    ]
}

/// The rule that `identifier` names, if it names one. The match is exact.
pub open spec fn rule_named(identifier: Seq<char>) -> Option<RenameRule> {
    if identifier == "lowercase"@ {
        Some(RenameRule::LowerCase)
    } else if identifier == "UPPERCASE"@ {
        Some(RenameRule::UpperCase)
    } else if identifier == "PascalCase"@ {
        Some(RenameRule::PascalCase)
    } else if identifier == "camelCase"@ {
        Some(RenameRule::CamelCase)
    } else if identifier == "snake_case"@ {
        Some(RenameRule::SnakeCase)
    } else if identifier == "SCREAMING_SNAKE_CASE"@ {
        Some(RenameRule::ScreamingSnakeCase)
    } else if identifier == "kebab-case"@ {
        Some(RenameRule::KebabCase)
    } else if identifier == "SCREAMING-KEBAB-CASE"@ {
        Some(RenameRule::ScreamingKebabCase)
    } else {
        None
    }
}

/// The message for a rule identifier that names no rule: the identifier as
/// written, then every identifier that would have been accepted.
pub open spec fn unknown_rule_message(unknown: Seq<char>) -> Seq<char> {
    "unknown rename rule `rename_all = "@ + debug_quoted(unknown) + "`, expected one of "@
        + debug_quoted("lowercase"@) + ", "@
        + debug_quoted("UPPERCASE"@) + ", "@
        + debug_quoted("PascalCase"@) + ", "@
        + debug_quoted("camelCase"@) + ", "@
        + debug_quoted("snake_case"@) + ", "@
        + debug_quoted("SCREAMING_SNAKE_CASE"@) + ", "@
        + debug_quoted("kebab-case"@) + ", "@
        + debug_quoted("SCREAMING-KEBAB-CASE"@)
}

/// `str::to_ascii_lowercase`: every ASCII capital letter becomes its small
/// letter and every other character stays.
#[verifier::external_body]
fn to_ascii_lowercase(name: &str) -> (lowered: String)
    ensures
        lowered@ == name@.map_values(|c: char| ascii_lower(c)),
{
    name.to_ascii_lowercase()
}

/// `str::to_ascii_uppercase`: every ASCII small letter becomes its capital
/// letter and every other character stays.
#[verifier::external_body]
fn to_ascii_uppercase(name: &str) -> (raised: String)
    ensures
        raised@ == name@.map_values(|c: char| ascii_upper(c)),
{
    name.to_ascii_uppercase()
}

/// heck's `ToUpperCamelCase::to_upper_camel_case` on a string slice; the
/// result depends on the text alone and is named by [`upper_camel_case`].
#[verifier::external_body]
fn to_upper_camel_case(name: &str) -> (converted: String)
    ensures
        converted@ == upper_camel_case(name@),
{
    name.to_upper_camel_case()
}

/// heck's `ToLowerCamelCase::to_lower_camel_case` on a string slice; the
/// result depends on the text alone and is named by [`lower_camel_case`].
#[verifier::external_body]
fn to_lower_camel_case(name: &str) -> (converted: String)
    ensures
        converted@ == lower_camel_case(name@),
{
    name.to_lower_camel_case()
}

/// heck's `ToSnakeCase::to_snake_case` on a string slice; the result depends
/// on the text alone and is named by [`snake_case`].
#[verifier::external_body]
fn to_snake_case(name: &str) -> (converted: String)
    ensures
        converted@ == snake_case(name@),
{
    name.to_snake_case()
}

/// heck's `ToShoutySnakeCase::to_shouty_snake_case` on a string slice; the
/// result depends on the text alone and is named by [`shouty_snake_case`].
#[verifier::external_body]
fn to_shouty_snake_case(name: &str) -> (converted: String)
    ensures
        converted@ == shouty_snake_case(name@),
{
    name.to_shouty_snake_case()
}

/// heck's `ToKebabCase::to_kebab_case` on a string slice; the result depends
/// on the text alone and is named by [`kebab_case`].
#[verifier::external_body]
fn to_kebab_case(name: &str) -> (converted: String)
    ensures
        converted@ == kebab_case(name@),
{
    name.to_kebab_case()
}

/// heck's `ToShoutyKebabCase::to_shouty_kebab_case` on a string slice; the
/// result depends on the text alone and is named by [`shouty_kebab_case`].
#[verifier::external_body]
fn to_shouty_kebab_case(name: &str) -> (converted: String)
    ensures
        converted@ == shouty_kebab_case(name@),
{
    name.to_shouty_kebab_case()
}

impl RenameRule {
    /// The identifier by which the rule is chosen; the identity rule has none.
    pub open spec fn identifier(self) -> Option<Seq<char>> {
        match self {
            RenameRule::Identity => None,
            RenameRule::LowerCase => Some("lowercase"@),
            RenameRule::UpperCase => Some("UPPERCASE"@),
            RenameRule::PascalCase => Some("PascalCase"@),
            RenameRule::CamelCase => Some("camelCase"@),
            RenameRule::SnakeCase => Some("snake_case"@),
            RenameRule::ScreamingSnakeCase => Some("SCREAMING_SNAKE_CASE"@),
            RenameRule::KebabCase => Some("kebab-case"@),
            RenameRule::ScreamingKebabCase => Some("SCREAMING-KEBAB-CASE"@),
        }
    }

    /// The canonical name that the rule gives to the identifier `name`.
    pub open spec fn renamed(self, name: Seq<char>) -> Seq<char> {
        match self {
            RenameRule::Identity => name,
            RenameRule::LowerCase => name.map_values(|c: char| ascii_lower(c)),
            RenameRule::UpperCase => name.map_values(|c: char| ascii_upper(c)),
            RenameRule::PascalCase => upper_camel_case(name),
            RenameRule::CamelCase => lower_camel_case(name),
            RenameRule::SnakeCase => snake_case(name),
            RenameRule::ScreamingSnakeCase => shouty_snake_case(name),
            RenameRule::KebabCase => kebab_case(name),
            RenameRule::ScreamingKebabCase => shouty_kebab_case(name),
        }
    }

    /// Reads a rule from its identifier. Anything but one of the eight
    /// identifiers, matched exactly, is handed back as unknown.
    pub fn from_str(rename_all_str: &str) -> (parsed: Result<Self, ParseError<'_>>)
        ensures
            match rule_named(rename_all_str@) {
                Some(rule) => parsed == Ok::<Self, ParseError<'_>>(rule),
                None => parsed is Err && parsed->Err_0.unknown_text() == rename_all_str@,
            },
    {
        if same_text(rename_all_str, "lowercase") {
            Ok(RenameRule::LowerCase)
        } else if same_text(rename_all_str, "UPPERCASE") {
            Ok(RenameRule::UpperCase)
        } else if same_text(rename_all_str, "PascalCase") {
            Ok(RenameRule::PascalCase)
        } else if same_text(rename_all_str, "camelCase") {
            Ok(RenameRule::CamelCase)
        } else if same_text(rename_all_str, "snake_case") {
            Ok(RenameRule::SnakeCase)
        } else if same_text(rename_all_str, "SCREAMING_SNAKE_CASE") {
            Ok(RenameRule::ScreamingSnakeCase)
        } else if same_text(rename_all_str, "kebab-case") {
            Ok(RenameRule::KebabCase)
        } else if same_text(rename_all_str, "SCREAMING-KEBAB-CASE") {
            Ok(RenameRule::ScreamingKebabCase)
        } else {
            Err(ParseError { unknown: rename_all_str })
        }
    }

    /// Applies the rule to a variant's identifier, giving its canonical name.
    pub fn apply(self, name: &str) -> (renamed: String)
        ensures
            renamed@ == self.renamed(name@),
    {
        match self {
            RenameRule::Identity => name.to_owned(),
            RenameRule::LowerCase => to_ascii_lowercase(name),
            RenameRule::UpperCase => to_ascii_uppercase(name),
            RenameRule::PascalCase => to_upper_camel_case(name),
            RenameRule::CamelCase => to_lower_camel_case(name),
            RenameRule::SnakeCase => to_snake_case(name),
            RenameRule::ScreamingSnakeCase => to_shouty_snake_case(name),
            RenameRule::KebabCase => to_kebab_case(name),
            RenameRule::ScreamingKebabCase => to_shouty_kebab_case(name),
        }
    }
}

impl<'a> ParseError<'a> {
    /// The error for `unknown`, an identifier that names no rule.
    pub fn new(unknown: &'a str) -> (error: Self)
        ensures
            error.unknown_text() == unknown@,
    {
        ParseError { unknown }
    }

    /// The identifier that named no rule.
    pub closed spec fn unknown_text(self) -> Seq<char> {
        self.unknown@
    }

    /// The identifier that named no rule.
    pub fn unknown(&self) -> (text: &'a str)
        ensures
            text@ == self.unknown_text(),
    {
        self.unknown
    }

    /// The message shown to the user.
    pub fn to_string(&self) -> (message: String)
        ensures
            message@ == unknown_rule_message(self.unknown_text()),
    {
        let mut message = String::from_str("unknown rename rule `rename_all = ");
        message.append(debug_quote(self.unknown).as_str());
        message.append("`, expected one of ");
        message.append(debug_quote("lowercase").as_str());
        message.append(", ");
        message.append(debug_quote("UPPERCASE").as_str());
        message.append(", ");
        message.append(debug_quote("PascalCase").as_str());
        message.append(", ");
        message.append(debug_quote("camelCase").as_str());
        message.append(", ");
        message.append(debug_quote("snake_case").as_str());
        message.append(", ");
        message.append(debug_quote("SCREAMING_SNAKE_CASE").as_str());
        message.append(", ");
        message.append(debug_quote("kebab-case").as_str());
        message.append(", ");
        message.append(debug_quote("SCREAMING-KEBAB-CASE").as_str());
        message
    }
}

/// Every rule that has an identifier is read back from it.
pub proof fn lemma_identifier_names_rule(rule: RenameRule)
    requires
        rule != RenameRule::Identity,
    ensures
        rule.identifier() is Some,
        rule_named(rule.identifier()->Some_0) == Some(rule),
{
    reveal_strlit("lowercase");
    reveal_strlit("UPPERCASE");
    reveal_strlit("PascalCase");
    reveal_strlit("camelCase");
    reveal_strlit("snake_case");
    reveal_strlit("SCREAMING_SNAKE_CASE");
    reveal_strlit("kebab-case");
    reveal_strlit("SCREAMING-KEBAB-CASE");
    assert("lowercase"@[0] == 'l');
    assert("UPPERCASE"@[0] == 'U');
    assert("PascalCase"@[0] == 'P');
    assert("camelCase"@[0] == 'c');
    assert("snake_case"@[0] == 's');
    assert("SCREAMING_SNAKE_CASE"@[9] == '_');
    assert("kebab-case"@[0] == 'k');
    assert("SCREAMING-KEBAB-CASE"@[9] == '-');
}

/// Only the eight identifiers name a rule, and none of them names the
/// identity rule.
pub proof fn lemma_rule_named_is_listed(identifier: Seq<char>)
    ensures
        rule_named(identifier) is Some <==> rule_identifiers().contains(identifier),
        rule_named(identifier) matches Some(rule) ==> rule.identifier() == Some(identifier),
{
    let listed = rule_identifiers();
    if rule_named(identifier) is Some {
        if identifier == "lowercase"@ {
            assert(listed[0] == identifier);
        } else if identifier == "UPPERCASE"@ {
            assert(listed[1] == identifier);
        } else if identifier == "PascalCase"@ {
            assert(listed[2] == identifier);
        } else if identifier == "camelCase"@ {
            assert(listed[3] == identifier);
        } else if identifier == "snake_case"@ {
            assert(listed[4] == identifier);
        } else if identifier == "SCREAMING_SNAKE_CASE"@ {
            assert(listed[5] == identifier);
        } else if identifier == "kebab-case"@ {
            assert(listed[6] == identifier);
        } else {
            assert(listed[7] == identifier);
        }
    }
}

} // verus!
