//! From an enum declaration to the description of a dictionary key.
//!
//! The declaration is read in one pass. Every problem found on the way is
//! recorded with the place it was found at, and reading goes on; a key is
//! described only where nothing was recorded.

use vstd::prelude::*;
use vstd::string::StringExecFns;

use crate::attribute::arguments;
use crate::attribute::parse_arguments;
use crate::attribute::placed;
use crate::attribute::Argument;
use crate::attribute::Expected;
use crate::attribute::SyntaxError;
use crate::attribute::Value;
use crate::case::rule_named;
use crate::case::unknown_rule_message;
use crate::case::ParseError;
use crate::case::RenameRule;
use crate::declaration::Attribute;
use crate::declaration::Declaration;
use crate::declaration::Fields;
use crate::declaration::Meta;
use crate::declaration::Shape;
use crate::declaration::Token;
use crate::declaration::Variant;
use crate::descriptor::KeyDescriptor;
use crate::descriptor::KeyEntry;
use crate::text::same_text;

verus! {

/// What carries an attribute.
#[derive(Copy, Clone, PartialEq, Eq, Debug, Structural)]
pub enum Owner {
    /// The declaration itself.
    Enum,
    /// The variant at this index.
    Variant(usize),
}

/// A place in a declaration.
#[derive(Copy, Clone, PartialEq, Eq, Debug, Structural)]
pub enum Site {
    /// The whole declaration.
    Input,
    /// The variant at this index.
    Variant(usize),
    /// An attribute: its owner and its index among the owner's attributes.
    Attribute(Owner, usize),
    /// A token of an attribute's list: the owner, the attribute's index and
    /// the token's index. An index equal to the length of the list is the end
    /// of the list.
    Token(Owner, usize, usize),
}

/// What is wrong at a place.
#[derive(Copy, Clone, PartialEq, Eq, Debug, Structural)]
pub enum Problem {
    /// The declaration is no enum.
    NotAnEnum,
    /// An `enum_dict` attribute without a list.
    ExpectedList,
    /// A token that the grammar of a list does not allow.
    Syntax(Expected),
    /// A list that ends where the grammar wants more.
    UnexpectedEnd(Expected),
    /// `rename_all` without a string literal for its value.
    ExpectedRenameAll,
    /// A `rename_all` value that names no rule.
    UnknownRule,
    /// An argument that is not known at this level.
    UnknownArgument,
    /// A variant that carries data.
    NonUnitVariant,
    /// `rename` without a string literal for its value.
    ExpectedRename,
}

/// One problem found in a declaration.
#[derive(Copy, Clone, PartialEq, Eq, Debug, Structural)]
pub struct Diagnostic {
    /// Where it was found.
    pub site: Site,
    /// What it is.
    pub problem: Problem,
}

/// The text of an identifier or a string literal; empty for any other token.
pub open spec fn token_text(token: Token) -> Seq<char> {
    match token {
        Token::Ident(text) => text@,
        Token::Literal(text) => text@,
        _ => Seq::empty(),
    }
}

/// The problem that a broken list is reported with.
pub open spec fn syntax_problem(tokens: Seq<Token>, error: SyntaxError) -> Problem {
    if error.at >= tokens.len() {
        Problem::UnexpectedEnd(error.expected)
    } else {
        Problem::Syntax(error.expected)
    }
}

/// What is wrong with one argument, and at which token, if anything is.
///
/// On the declaration only `rename_all = "<rule>"` is known, on a variant only
/// `rename = "<name>"`.
pub open spec fn argument_problem(owner: Owner, tokens: Seq<Token>, argument: Argument) -> Option<
    (usize, Problem),
> {
    let name = token_text(tokens[argument.name as int]);
    match owner {
        Owner::Enum => if name == "rename_all"@ {
            match argument.value {
                Value::Literal(at) => match rule_named(token_text(tokens[at as int])) {
                    Some(_) => None,
                    None => Some((at, Problem::UnknownRule)),
                },
                _ => Some((argument.name, Problem::ExpectedRenameAll)),
            }
        } else {
            Some((argument.name, Problem::UnknownArgument))
        },
        Owner::Variant(_) => if name == "rename"@ {
            match argument.value {
                Value::Literal(_) => None,
                _ => Some((argument.name, Problem::ExpectedRename)),
            }
        } else {
            Some((argument.name, Problem::UnknownArgument))
        },
    }
}

/// The diagnostics of one argument of attribute `index` of `owner`: one or
/// none.
pub open spec fn argument_diagnostics(
    owner: Owner,
    index: usize,
    tokens: Seq<Token>,
    argument: Argument,
) -> Seq<Diagnostic> {
    match argument_problem(owner, tokens, argument) {
        Some((at, problem)) => seq![Diagnostic { site: Site::Token(owner, index, at), problem }],
        None => Seq::empty(),
    }
}

/// The diagnostics of the first `n` arguments of a list, in order.
pub open spec fn arguments_diagnostics(
    owner: Owner,
    index: usize,
    tokens: Seq<Token>,
    list: Seq<Argument>,
    n: int,
) -> Seq<Diagnostic>
    decreases n,
{
    if n <= 0 {
        Seq::empty()
    } else {
        arguments_diagnostics(owner, index, tokens, list, n - 1) + argument_diagnostics(
            owner,
            index,
            tokens,
            list[n - 1],
        )
    }
}

/// The diagnostics of attribute `index` of `owner`. An attribute with another
/// path is not read at all; one without a list, or with a list that breaks the
/// grammar, gives one diagnostic and none of its arguments is read.
pub open spec fn attribute_diagnostics(owner: Owner, index: usize, attribute: Attribute) -> Seq<
    Diagnostic,
> {
    if !attribute.is_ours() {
        Seq::empty()
    } else if !(attribute.meta is List) {
        seq![Diagnostic { site: Site::Attribute(owner, index), problem: Problem::ExpectedList }]
    } else {
        match arguments(attribute.tokens()) {
            Err(error) => seq![
                Diagnostic {
                    site: Site::Token(owner, index, error.at),
                    problem: syntax_problem(attribute.tokens(), error),
                },
            ],
            Ok(list) => arguments_diagnostics(
                owner,
                index,
                attribute.tokens(),
                list,
                list.len() as int,
            ),
        }
    }
}

/// The diagnostics of the first `n` attributes of `owner`, in order.
pub open spec fn attributes_diagnostics(owner: Owner, attributes: Seq<Attribute>, n: int) -> Seq<
    Diagnostic,
>
    decreases n,
{
    if n <= 0 {
        Seq::empty()
    } else {
        attributes_diagnostics(owner, attributes, n - 1) + attribute_diagnostics(
            owner,
            (n - 1) as usize,
            attributes[n - 1],
        )
    }
}

/// The rule in force after one argument of the declaration's lists: the one
/// that a `rename_all` with a known rule names, else the one before.
pub open spec fn rule_after_argument(
    tokens: Seq<Token>,
    argument: Argument,
    before: RenameRule,
) -> RenameRule {
    if token_text(tokens[argument.name as int]) == "rename_all"@ {
        match argument.value {
            Value::Literal(at) => match rule_named(token_text(tokens[at as int])) {
                Some(rule) => rule,
                None => before,
            },
            _ => before,
        }
    } else {
        before
    }
}

/// The rule in force after the first `n` arguments of a list.
pub open spec fn rule_after_arguments(
    tokens: Seq<Token>,
    list: Seq<Argument>,
    n: int,
    before: RenameRule,
) -> RenameRule
    decreases n,
{
    if n <= 0 {
        before
    } else {
        rule_after_argument(tokens, list[n - 1], rule_after_arguments(tokens, list, n - 1, before))
    }
}

/// The arguments of an attribute that are read: those of an `enum_dict`
/// attribute whose list keeps to the grammar; none of any other attribute.
pub open spec fn read_arguments(attribute: Attribute) -> Seq<Argument> {
    if attribute.is_ours() && attribute.meta is List {
        match arguments(attribute.tokens()) {
            Ok(list) => list,
            Err(_) => Seq::empty(),
        }
    } else {
        Seq::empty()
    }
}

/// The rule in force after the first `n` attributes of the declaration. It
/// starts as the identity rule, and the last `rename_all` that names a rule
/// decides.
pub open spec fn rule_after_attributes(attributes: Seq<Attribute>, n: int) -> RenameRule
    decreases n,
{
    if n <= 0 {
        RenameRule::Identity
    } else {
        rule_after_arguments(
            attributes[n - 1].tokens(),
            read_arguments(attributes[n - 1]),
            read_arguments(attributes[n - 1]).len() as int,
            rule_after_attributes(attributes, n - 1),
        )
    }
}

/// The rule that a declaration's own attributes choose.
pub open spec fn chosen_rule(input: Declaration) -> RenameRule {
    rule_after_attributes(input.attrs@, input.attrs@.len() as int)
}

/// A variant's name after one argument of its lists: the literal of a
/// `rename`, else the name before.
pub open spec fn name_after_argument(tokens: Seq<Token>, argument: Argument, before: Seq<char>) -> Seq<
    char,
> {
    if token_text(tokens[argument.name as int]) == "rename"@ {
        match argument.value {
            Value::Literal(at) => token_text(tokens[at as int]),
            _ => before,
        }
    } else {
        before
    }
}

/// A variant's name after the first `n` arguments of a list.
pub open spec fn name_after_arguments(
    tokens: Seq<Token>,
    list: Seq<Argument>,
    n: int,
    before: Seq<char>,
) -> Seq<char>
    decreases n,
{
    if n <= 0 {
        before
    } else {
        name_after_argument(tokens, list[n - 1], name_after_arguments(tokens, list, n - 1, before))
    }
}

/// A variant's name after the first `n` of its attributes, starting from
/// `before`.
pub open spec fn name_after_attributes(attributes: Seq<Attribute>, n: int, before: Seq<char>) -> Seq<
    char,
>
    decreases n,
{
    if n <= 0 {
        before
    } else {
        name_after_arguments(
            attributes[n - 1].tokens(),
            read_arguments(attributes[n - 1]),
            read_arguments(attributes[n - 1]).len() as int,
            name_after_attributes(attributes, n - 1, before),
        )
    }
}

/// The canonical name of a variant under `rule`: the literal of its last
/// `rename`, and without one what the rule makes of its identifier.
pub open spec fn canonical_name(rule: RenameRule, variant: Variant) -> Seq<char> {
    name_after_attributes(
        variant.attrs@,
        variant.attrs@.len() as int,
        rule.renamed(variant.ident@),
    )
}

/// The diagnostics of the variant at `index`. A variant that carries data
/// gives one diagnostic and its attributes are not read.
pub open spec fn variant_diagnostics(index: usize, variant: Variant) -> Seq<Diagnostic> {
    if variant.fields != Fields::Unit {
        seq![Diagnostic { site: Site::Variant(index), problem: Problem::NonUnitVariant }]
    } else {
        attributes_diagnostics(Owner::Variant(index), variant.attrs@, variant.attrs@.len() as int)
    }
}

/// The diagnostics of the first `n` variants, in order.
pub open spec fn variants_diagnostics(variants: Seq<Variant>, n: int) -> Seq<Diagnostic>
    decreases n,
{
    if n <= 0 {
        Seq::empty()
    } else {
        variants_diagnostics(variants, n - 1) + variant_diagnostics(
            (n - 1) as usize,
            variants[n - 1],
        )
    }
}

/// The keys that the first `n` variants give under `rule`, as pairs of
/// identifier and canonical name: one per variant without data, in order.
pub open spec fn keys(rule: RenameRule, variants: Seq<Variant>, n: int) -> Seq<
    (Seq<char>, Seq<char>),
>
    decreases n,
{
    if n <= 0 {
        Seq::empty()
    } else if variants[n - 1].fields != Fields::Unit {
        keys(rule, variants, n - 1)
    } else {
        keys(rule, variants, n - 1).push(
            (variants[n - 1].ident@, canonical_name(rule, variants[n - 1])),
        )
    }
}

/// Every problem of a declaration: those of its own attributes first, then
/// those of its variants in declaration order. A declaration that is no enum
/// has that one problem.
pub open spec fn diagnostics(input: Declaration) -> Seq<Diagnostic> {
    match input.shape {
        Shape::Enum(variants) => attributes_diagnostics(
            Owner::Enum,
            input.attrs@,
            input.attrs@.len() as int,
        ) + variants_diagnostics(variants@, variants@.len() as int),
        _ => seq![Diagnostic { site: Site::Input, problem: Problem::NotAnEnum }],
    }
}

/// The keys of a declaration, as pairs of identifier and canonical name.
pub open spec fn described_keys(input: Declaration) -> Seq<(Seq<char>, Seq<char>)> {
    keys(chosen_rule(input), input.variants(), input.variants().len() as int)
}

/// The attributes that `owner` carries in `input`.
pub open spec fn attributes_of(input: Declaration, owner: Owner) -> Seq<Attribute> {
    match owner {
        Owner::Enum => input.attrs@,
        Owner::Variant(index) => if index < input.variants().len() {
            input.variants()[index as int].attrs@
        } else {
            Seq::empty()
        },
    }
}

/// The text of the identifier or string literal at `site`; empty where the
/// site is no such token of `input`.
pub open spec fn site_text(input: Declaration, site: Site) -> Seq<char> {
    match site {
        Site::Token(owner, index, at) => {
            let attributes = attributes_of(input, owner);
            if index < attributes.len() && at < attributes[index as int].tokens().len() {
                token_text(attributes[index as int].tokens()[at as int])
            } else {
                Seq::empty()
            }
        },
        _ => Seq::empty(),
    }
}

/// The text of the message for `problem`, where `literal` is the text of the
/// string literal at its site, if it is at one.
pub open spec fn problem_message(problem: Problem, literal: Seq<char>) -> Seq<char> {
    match problem {
        Problem::NotAnEnum => "DictKey can only be derived for enums"@,
        Problem::ExpectedList => "expected #[enum_dict(...)]"@,
        Problem::Syntax(expected) => expected_message(expected),
        Problem::UnexpectedEnd(expected) => "unexpected end of input, "@ + expected_message(
            expected,
        ),
        Problem::ExpectedRenameAll => "expected rename_all = \"...\""@,
        Problem::UnknownRule => unknown_rule_message(literal),
        Problem::UnknownArgument => "unknown attribute for enum_dict derive"@,
        Problem::NonUnitVariant => "DictKey can only be derived for unit variants"@,
        Problem::ExpectedRename => "expected rename = \"...\""@,
    }
}

/// The words for what the grammar wanted.
pub open spec fn expected_message(expected: Expected) -> Seq<char> {
    match expected {
        Expected::Identifier => "expected identifier"@,
        Expected::Comma => "expected `,`"@,
        Expected::Value => "expected an expression"@,
    }
}

/// The text of an identifier or a string literal; empty for any other token.
fn text_of(token: &Token) -> (text: &str)
    ensures
        text@ == token_text(*token),
{
    proof {
        reveal_strlit("");
        assert(""@ =~= Seq::<char>::empty());
    }
    match token {
        Token::Ident(text) => text.as_str(),
        Token::Literal(text) => text.as_str(),
        _ => "",
    }
}

/// The text of the token at `at` in the list of attribute `index` among
/// `attributes`; empty where there is no such token.
fn text_in<'a>(attributes: &'a Vec<Attribute>, index: usize, at: usize) -> (text: &'a str)
    ensures
        text@ == (if index < attributes@.len() && at < attributes@[index as int].tokens().len() {
            token_text(attributes@[index as int].tokens()[at as int])
        } else {
            Seq::empty()
        }),
{
    proof {
        reveal_strlit("");
        assert(""@ =~= Seq::<char>::empty());
    }
    if index < attributes.len() {
        match &attributes[index].meta {
            Meta::List(tokens) => if at < tokens.len() {
                text_of(&tokens[at])
            } else {
                ""
            },
            _ => "",
        }
    } else {
        ""
    }
}

/// The words for what the grammar wanted.
fn expected_words(expected: Expected) -> (words: &'static str)
    ensures
        words@ == expected_message(expected),
{
    match expected {
        Expected::Identifier => "expected identifier",
        Expected::Comma => "expected `,`",
        Expected::Value => "expected an expression",
    }
}

impl Diagnostic {
    /// The text of the identifier or string literal that the diagnostic
    /// points at in `input`; empty where it points at no such token.
    pub fn text<'a>(&self, input: &'a Declaration) -> (text: &'a str)
        ensures
            text@ == site_text(*input, self.site),
    {
        proof {
            reveal_strlit("");
            assert(""@ =~= Seq::<char>::empty());
        }
        match self.site {
            Site::Token(Owner::Enum, index, at) => text_in(&input.attrs, index, at),
            Site::Token(Owner::Variant(v), index, at) => match &input.shape {
                Shape::Enum(variants) => if v < variants.len() {
                    text_in(&variants[v].attrs, index, at)
                } else {
                    ""
                },
                _ => "",
            },
            _ => "",
        }
    }

    /// The message for the user. `input` is the declaration that the
    /// diagnostic was found in.
    pub fn message(&self, input: &Declaration) -> (message: String)
        ensures
            message@ == problem_message(self.problem, site_text(*input, self.site)),
    {
        match self.problem {
            Problem::NotAnEnum => String::from_str("DictKey can only be derived for enums"),
            Problem::ExpectedList => String::from_str("expected #[enum_dict(...)]"),
            Problem::Syntax(expected) => String::from_str(expected_words(expected)),
            Problem::UnexpectedEnd(expected) => String::from_str(
                "unexpected end of input, ",
            ).concat(expected_words(expected)),
            Problem::ExpectedRenameAll => String::from_str("expected rename_all = \"...\""),
            Problem::UnknownRule => ParseError::new(self.text(input)).to_string(),
            Problem::UnknownArgument => String::from_str("unknown attribute for enum_dict derive"),
            Problem::NonUnitVariant => String::from_str(
                "DictKey can only be derived for unit variants",
            ),
            Problem::ExpectedRename => String::from_str("expected rename = \"...\""),
        }
    }
}

/// Reads one argument of a list on the declaration: records what is wrong
/// with it and gives the rule in force after it.
fn read_enum_argument(
    index: usize,
    tokens: &Vec<Token>,
    argument: Argument,
    rule: RenameRule,
    found: &mut Vec<Diagnostic>,
) -> (after: RenameRule)
    requires
        placed(tokens@, argument),
    ensures
        final(found)@ == old(found)@ + argument_diagnostics(
            Owner::Enum,
            index,
            tokens@,
            argument,
        ),
        after == rule_after_argument(tokens@, argument, rule),
{
    let ghost before = found@;
    if same_text(text_of(&tokens[argument.name]), "rename_all") {
        match argument.value {
            Value::Literal(at) => {
                match RenameRule::from_str(text_of(&tokens[at])) {
                    Ok(named) => {
                        assert(before + Seq::<Diagnostic>::empty() =~= before);
                        named
                    },
                    Err(_) => {
                        found.push(
                            Diagnostic {
                                site: Site::Token(Owner::Enum, index, at),
                                problem: Problem::UnknownRule,
                            },
                        );
                        rule
                    },
                }
            },
            _ => {
                found.push(
                    Diagnostic {
                        site: Site::Token(Owner::Enum, index, argument.name),
                        problem: Problem::ExpectedRenameAll,
                    },
                );
                rule
            },
        }
    } else {
        found.push(
            Diagnostic {
                site: Site::Token(Owner::Enum, index, argument.name),
                problem: Problem::UnknownArgument,
            },
        );
        rule
    }
}

/// Reads one argument of a list on the variant at `variant`: records what is
/// wrong with it and gives the variant's name after it.
fn read_variant_argument(
    variant: usize,
    index: usize,
    tokens: &Vec<Token>,
    argument: Argument,
    name: String,
    found: &mut Vec<Diagnostic>,
) -> (after: String)
    requires
        placed(tokens@, argument),
    ensures
        final(found)@ == old(found)@ + argument_diagnostics(
            Owner::Variant(variant),
            index,
            tokens@,
            argument,
        ),
        after@ == name_after_argument(tokens@, argument, name@),
{
    let ghost before = found@;
    if same_text(text_of(&tokens[argument.name]), "rename") {
        match argument.value {
            Value::Literal(at) => {
                assert(before + Seq::<Diagnostic>::empty() =~= before);
                String::from_str(text_of(&tokens[at]))
            },
            _ => {
                found.push(
                    Diagnostic {
                        site: Site::Token(Owner::Variant(variant), index, argument.name),
                        problem: Problem::ExpectedRename,
                    },
                );
                name
            },
        }
    } else {
        found.push(
            Diagnostic {
                site: Site::Token(Owner::Variant(variant), index, argument.name),
                problem: Problem::UnknownArgument,
            },
        );
        name
    }
}

/// The arguments of `attribute` that are to be read, after recording what
/// keeps them from being read, if anything does.
fn open_attribute<'a>(
    owner: Owner,
    index: usize,
    attribute: &'a Attribute,
    found: &mut Vec<Diagnostic>,
) -> (opened: Option<(&'a Vec<Token>, Vec<Argument>)>)
    ensures
        match opened {
            Some((tokens, list)) => {
                &&& tokens@ == attribute.tokens()
                &&& list@ == read_arguments(*attribute)
                &&& arguments(attribute.tokens()) == Ok::<Seq<Argument>, SyntaxError>(list@)
                &&& attribute.is_ours()
                &&& attribute.meta is List
                &&& final(found)@ == old(found)@
                &&& forall|j: int| 0 <= j < list@.len() ==> placed(tokens@, #[trigger] list@[j])
            },
            None => {
                &&& read_arguments(*attribute) == Seq::<Argument>::empty()
                &&& final(found)@ == old(found)@ + attribute_diagnostics(owner, index, *attribute)
            },
        },
{
    let ghost before = found@;
    if !same_text(attribute.path.as_str(), "enum_dict") {
        assert(before + Seq::<Diagnostic>::empty() =~= before);
        return None;
    }
    match &attribute.meta {
        Meta::List(tokens) => {
            match parse_arguments(tokens) {
                Ok(list) => Some((tokens, list)),
                Err(error) => {
                    let problem = if error.at >= tokens.len() {
                        Problem::UnexpectedEnd(error.expected)
                    } else {
                        Problem::Syntax(error.expected)
                    };
                    found.push(Diagnostic { site: Site::Token(owner, index, error.at), problem });
                    None
                },
            }
        },
        _ => {
            found.push(
                Diagnostic { site: Site::Attribute(owner, index), problem: Problem::ExpectedList },
            );
            None
        },
    }
}

/// Reads attribute `index` of the declaration: records its problems and gives
/// the rule in force after it.
fn read_enum_attribute(
    index: usize,
    attribute: &Attribute,
    rule: RenameRule,
    found: &mut Vec<Diagnostic>,
) -> (after: RenameRule)
    ensures
        final(found)@ == old(found)@ + attribute_diagnostics(Owner::Enum, index, *attribute),
        after == rule_after_arguments(
            attribute.tokens(),
            read_arguments(*attribute),
            read_arguments(*attribute).len() as int,
            rule,
        ),
{
    let ghost before = found@;
    match open_attribute(Owner::Enum, index, attribute, found) {
        None => rule,
        Some((tokens, list)) => {
            let mut after = rule;
            let mut j: usize = 0;
            assert(before + Seq::<Diagnostic>::empty() =~= before);
            while j < list.len()
                invariant
                    j <= list.len(),
                    forall|k: int| 0 <= k < list@.len() ==> placed(tokens@, #[trigger] list@[k]),
                    found@ == before + arguments_diagnostics(
                        Owner::Enum,
                        index,
                        tokens@,
                        list@,
                        j as int,
                    ),
                    after == rule_after_arguments(tokens@, list@, j as int, rule),
                decreases list.len() - j,
            {
                let ghost so_far = arguments_diagnostics(
                    Owner::Enum,
                    index,
                    tokens@,
                    list@,
                    j as int,
                );
                after = read_enum_argument(index, tokens, list[j], after, found);
                proof {
                    let one = argument_diagnostics(Owner::Enum, index, tokens@, list@[j as int]);
                    assert((before + so_far) + one =~= before + (so_far + one));
                }
                j += 1;
            }
            after
        },
    }
}

/// Reads attribute `index` of the variant at `variant`: records its problems
/// and gives the variant's name after it.
fn read_variant_attribute(
    variant: usize,
    index: usize,
    attribute: &Attribute,
    name: String,
    found: &mut Vec<Diagnostic>,
) -> (after: String)
    ensures
        final(found)@ == old(found)@ + attribute_diagnostics(
            Owner::Variant(variant),
            index,
            *attribute,
        ),
        after@ == name_after_arguments(
            attribute.tokens(),
            read_arguments(*attribute),
            read_arguments(*attribute).len() as int,
            name@,
        ),
{
    let ghost before = found@;
    let ghost start = name@;
    match open_attribute(Owner::Variant(variant), index, attribute, found) {
        None => name,
        Some((tokens, list)) => {
            let mut after = name;
            let mut j: usize = 0;
            assert(before + Seq::<Diagnostic>::empty() =~= before);
            while j < list.len()
                invariant
                    j <= list.len(),
                    forall|k: int| 0 <= k < list@.len() ==> placed(tokens@, #[trigger] list@[k]),
                    found@ == before + arguments_diagnostics(
                        Owner::Variant(variant),
                        index,
                        tokens@,
                        list@,
                        j as int,
                    ),
                    after@ == name_after_arguments(tokens@, list@, j as int, start),
                decreases list.len() - j,
            {
                let ghost so_far = arguments_diagnostics(
                    Owner::Variant(variant),
                    index,
                    tokens@,
                    list@,
                    j as int,
                );
                after = read_variant_argument(variant, index, tokens, list[j], after, found);
                proof {
                    let one = argument_diagnostics(
                        Owner::Variant(variant),
                        index,
                        tokens@,
                        list@[j as int],
                    );
                    assert((before + so_far) + one =~= before + (so_far + one));
                }
                j += 1;
            }
            after
        },
    }
}

/// Reads the variant at `index`: records its problems and, where it carries
/// no data, adds its key.
fn read_variant(
    index: usize,
    variant: &Variant,
    rule: RenameRule,
    found: &mut Vec<Diagnostic>,
) -> (key: Option<KeyEntry>)
    ensures
        final(found)@ == old(found)@ + variant_diagnostics(index, *variant),
        match key {
            Some(entry) => {
                &&& variant.fields == Fields::Unit
                &&& entry.ident@ == variant.ident@
                &&& entry.name@ == canonical_name(rule, *variant)
            },
            None => variant.fields != Fields::Unit,
        },
{
    let ghost before = found@;
    match variant.fields {
        Fields::Unit => {},
        _ => {
            found.push(
                Diagnostic { site: Site::Variant(index), problem: Problem::NonUnitVariant },
            );
            return None;
        },
    }
    let ghost start = rule.renamed(variant.ident@);
    let mut name = rule.apply(variant.ident.as_str());
    let mut a: usize = 0;
    assert(before + Seq::<Diagnostic>::empty() =~= before);
    while a < variant.attrs.len()
        invariant
            a <= variant.attrs.len(),
            found@ == before + attributes_diagnostics(
                Owner::Variant(index),
                variant.attrs@,
                a as int,
            ),
            name@ == name_after_attributes(variant.attrs@, a as int, start),
        decreases variant.attrs.len() - a,
    {
        let ghost so_far = attributes_diagnostics(Owner::Variant(index), variant.attrs@, a as int);
        name = read_variant_attribute(index, a, &variant.attrs[a], name, found);
        proof {
            let one = attribute_diagnostics(Owner::Variant(index), a, variant.attrs@[a as int]);
            assert((before + so_far) + one =~= before + (so_far + one));
        }
        a += 1;
    }
    Some(KeyEntry { ident: variant.ident.clone(), name })
}

/// Derives the key that an enum declaration describes.
///
/// Gives the key where the declaration has no problem at all, and every
/// problem of it otherwise.
pub fn derive_dict_key(input: &Declaration) -> (derived: Result<KeyDescriptor, Vec<Diagnostic>>)
    ensures
        match derived {
            Ok(key) => {
                &&& diagnostics(*input).len() == 0
                &&& key.ident@ == input.ident@
                &&& key.pairs() == described_keys(*input)
            },
            Err(found) => found@.len() > 0 && found@ == diagnostics(*input),
        },
{
    let variants = match &input.shape {
        Shape::Enum(variants) => variants,
        _ => {
            let mut found: Vec<Diagnostic> = Vec::new();
            found.push(Diagnostic { site: Site::Input, problem: Problem::NotAnEnum });
            return Err(found);
        },
    };
    let mut found: Vec<Diagnostic> = Vec::new();
    let mut rule = RenameRule::Identity;
    let mut a: usize = 0;
    while a < input.attrs.len()
        invariant
            a <= input.attrs.len(),
            found@ == attributes_diagnostics(Owner::Enum, input.attrs@, a as int),
            rule == rule_after_attributes(input.attrs@, a as int),
        decreases input.attrs.len() - a,
    {
        rule = read_enum_attribute(a, &input.attrs[a], rule, &mut found);
        a += 1;
    }
    let ghost ahead = found@;
    let mut entries: Vec<KeyEntry> = Vec::new();
    let mut v: usize = 0;
    assert(ahead + Seq::<Diagnostic>::empty() =~= ahead);
    while v < variants.len()
        invariant
            v <= variants.len(),
            found@ == ahead + variants_diagnostics(variants@, v as int),
            entries@.map_values(|entry: KeyEntry| (entry.ident@, entry.name@)) == keys(
                rule,
                variants@,
                v as int,
            ),
        decreases variants.len() - v,
    {
        let ghost so_far = variants_diagnostics(variants@, v as int);
        let ghost pairs = entries@.map_values(|entry: KeyEntry| (entry.ident@, entry.name@));
        match read_variant(v, &variants[v], rule, &mut found) {
            Some(entry) => {
                entries.push(entry);
                assert(entries@.map_values(|entry: KeyEntry| (entry.ident@, entry.name@))
                    =~= pairs.push((entry.ident@, entry.name@)));
            },
            None => {},
        }
        proof {
            let one = variant_diagnostics(v, variants@[v as int]);
            assert((ahead + so_far) + one =~= ahead + (so_far + one));
        }
        v += 1;
    }
    if found.len() > 0 {
        Err(found)
    } else {
        Ok(KeyDescriptor { ident: input.ident.clone(), entries })
    }
}

} // verus!
