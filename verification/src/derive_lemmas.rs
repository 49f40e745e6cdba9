//! What holds of every derivation.

use vstd::prelude::*;

use crate::attribute::Argument;
use crate::attribute::Value;
use crate::case::RenameRule;
use crate::declaration::Attribute;
use crate::declaration::Declaration;
use crate::declaration::Fields;
use crate::declaration::Token;
use crate::declaration::Variant;
use crate::derive::argument_diagnostics;
use crate::derive::arguments_diagnostics;
use crate::derive::attribute_diagnostics;
use crate::derive::attributes_diagnostics;
use crate::derive::attributes_of;
use crate::derive::canonical_name;
use crate::derive::chosen_rule;
use crate::derive::described_keys;
use crate::derive::diagnostics;
use crate::derive::keys;
use crate::derive::name_after_arguments;
use crate::derive::name_after_attributes;
use crate::derive::read_arguments;
use crate::derive::rule_after_attributes;
use crate::derive::token_text;
use crate::derive::variant_diagnostics;
use crate::derive::variants_diagnostics;
use crate::derive::Diagnostic;
use crate::derive::Owner;
use crate::derive::Problem;
use crate::derive::Site;

verus! {

/// Whether argument `j` of what is read of `attribute` is `rename` with a
/// string literal for its value.
pub open spec fn renames(attribute: Attribute, j: int) -> bool {
    let list = read_arguments(attribute);
    &&& 0 <= j < list.len()
    &&& token_text(attribute.tokens()[list[j].name as int]) == "rename"@
    &&& list[j].value is Literal
}

/// The text of the string literal that is the value of argument `j` of what
/// is read of `attribute`.
pub open spec fn literal_of(attribute: Attribute, j: int) -> Seq<char> {
    match read_arguments(attribute)[j].value {
        Value::Literal(at) => token_text(attribute.tokens()[at as int]),
        _ => Seq::empty(),
    }
}

/// What is in either part is in the whole.
proof fn lemma_in_part<T>(left: Seq<T>, right: Seq<T>, item: T)
    requires
        left.contains(item) || right.contains(item),
    ensures
        (left + right).contains(item),
{
    if left.contains(item) {
        let i = choose|i: int| 0 <= i < left.len() && left[i] == item;
        assert((left + right)[i] == item);
    } else {
        let i = choose|i: int| 0 <= i < right.len() && right[i] == item;
        assert((left + right)[left.len() + i] == item);
    }
}

/// What is reported of one argument is reported of the list.
proof fn lemma_argument_reported(
    owner: Owner,
    index: usize,
    tokens: Seq<Token>,
    list: Seq<Argument>,
    n: int,
    j: int,
    item: Diagnostic,
)
    requires
        0 <= j < n,
        argument_diagnostics(owner, index, tokens, list[j]).contains(item),
    ensures
        arguments_diagnostics(owner, index, tokens, list, n).contains(item),
    decreases n,
{
    if j < n - 1 {
        lemma_argument_reported(owner, index, tokens, list, n - 1, j, item);
    }
    lemma_in_part(
        arguments_diagnostics(owner, index, tokens, list, n - 1),
        argument_diagnostics(owner, index, tokens, list[n - 1]),
        item,
    );
}

/// What is reported of one attribute is reported of its owner's attributes.
proof fn lemma_attribute_reported(
    owner: Owner,
    attributes: Seq<Attribute>,
    n: int,
    a: int,
    item: Diagnostic,
)
    requires
        0 <= a < n,
        attribute_diagnostics(owner, a as usize, attributes[a]).contains(item),
    ensures
        attributes_diagnostics(owner, attributes, n).contains(item),
    decreases n,
{
    if a < n - 1 {
        lemma_attribute_reported(owner, attributes, n - 1, a, item);
    }
    lemma_in_part(
        attributes_diagnostics(owner, attributes, n - 1),
        attribute_diagnostics(owner, (n - 1) as usize, attributes[n - 1]),
        item,
    );
}

/// What is reported of one variant is reported of the variants.
proof fn lemma_variant_reported(variants: Seq<Variant>, n: int, v: int, item: Diagnostic)
    requires
        0 <= v < n,
        variant_diagnostics(v as usize, variants[v]).contains(item),
    ensures
        variants_diagnostics(variants, n).contains(item),
    decreases n,
{
    if v < n - 1 {
        lemma_variant_reported(variants, n - 1, v, item);
    }
    lemma_in_part(
        variants_diagnostics(variants, n - 1),
        variant_diagnostics((n - 1) as usize, variants[n - 1]),
        item,
    );
}

/// A variant that carries data is reported, whatever else the declaration
/// holds.
pub proof fn lemma_data_variant_reported(input: Declaration, v: int)
    requires
        input.shape is Enum,
        0 <= v < input.variants().len(),
        input.variants()[v].fields != Fields::Unit,
    ensures
        diagnostics(input).contains(
            Diagnostic { site: Site::Variant(v as usize), problem: Problem::NonUnitVariant },
        ),
{
    let item = Diagnostic { site: Site::Variant(v as usize), problem: Problem::NonUnitVariant };
    let variants = input.variants();
    assert(variant_diagnostics(v as usize, variants[v])[0] == item);
    lemma_variant_reported(variants, variants.len() as int, v, item);
    lemma_in_part(
        attributes_diagnostics(Owner::Enum, input.attrs@, input.attrs@.len() as int),
        variants_diagnostics(variants, variants.len() as int),
        item,
    );
}

/// An argument with a name that is not known where it stands is reported,
/// whatever else the declaration holds: on the declaration any name but
/// `rename_all`, on a variant without data any name but `rename`.
pub proof fn lemma_unknown_argument_reported(input: Declaration, owner: Owner, a: int, j: int)
    requires
        input.shape is Enum,
        owner matches Owner::Variant(v) ==> {
            &&& v < input.variants().len()
            &&& input.variants()[v as int].fields == Fields::Unit
        },
        0 <= a < attributes_of(input, owner).len(),
        a <= usize::MAX,
        0 <= j < read_arguments(attributes_of(input, owner)[a]).len(),
        token_text(
            attributes_of(input, owner)[a].tokens()[read_arguments(
                attributes_of(input, owner)[a],
            )[j].name as int],
        ) != (match owner {
            Owner::Enum => "rename_all"@,
            Owner::Variant(_) => "rename"@,
        }),
    ensures
        diagnostics(input).contains(
            Diagnostic {
                site: Site::Token(
                    owner,
                    a as usize,
                    read_arguments(attributes_of(input, owner)[a])[j].name,
                ),
                problem: Problem::UnknownArgument,
            },
        ),
{
    let attributes = attributes_of(input, owner);
    let attribute = attributes[a];
    let list = read_arguments(attribute);
    let item = Diagnostic {
        site: Site::Token(owner, a as usize, list[j].name),
        problem: Problem::UnknownArgument,
    };
    assert(argument_diagnostics(owner, a as usize, attribute.tokens(), list[j])[0] == item);
    lemma_argument_reported(
        owner,
        a as usize,
        attribute.tokens(),
        list,
        list.len() as int,
        j,
        item,
    );
    lemma_attribute_reported(owner, attributes, attributes.len() as int, a, item);
    let ahead = attributes_diagnostics(Owner::Enum, input.attrs@, input.attrs@.len() as int);
    let behind = variants_diagnostics(input.variants(), input.variants().len() as int);
    match owner {
        Owner::Enum => {},
        Owner::Variant(v) => {
            lemma_variant_reported(input.variants(), input.variants().len() as int, v as int, item);
        },
    }
    lemma_in_part(ahead, behind, item);
}

/// Two problems that do not depend on each other are both reported in one
/// derivation: a variant that carries data, and an argument with an unknown
/// name.
pub proof fn lemma_independent_problems_both_reported(
    input: Declaration,
    v: int,
    owner: Owner,
    a: int,
    j: int,
)
    requires
        input.shape is Enum,
        0 <= v < input.variants().len(),
        input.variants()[v].fields != Fields::Unit,
        owner matches Owner::Variant(w) ==> {
            &&& w < input.variants().len()
            &&& input.variants()[w as int].fields == Fields::Unit
        },
        0 <= a < attributes_of(input, owner).len(),
        a <= usize::MAX,
        0 <= j < read_arguments(attributes_of(input, owner)[a]).len(),
        token_text(
            attributes_of(input, owner)[a].tokens()[read_arguments(
                attributes_of(input, owner)[a],
            )[j].name as int],
        ) != (match owner {
            Owner::Enum => "rename_all"@,
            Owner::Variant(_) => "rename"@,
        }),
    ensures
        diagnostics(input).contains(
            Diagnostic { site: Site::Variant(v as usize), problem: Problem::NonUnitVariant },
        ),
        diagnostics(input).contains(
            Diagnostic {
                site: Site::Token(
                    owner,
                    a as usize,
                    read_arguments(attributes_of(input, owner)[a])[j].name,
                ),
                problem: Problem::UnknownArgument,
            },
        ),
        diagnostics(input).len() >= 2,
{
    lemma_data_variant_reported(input, v);
    lemma_unknown_argument_reported(input, owner, a, j);
    let first = Diagnostic { site: Site::Variant(v as usize), problem: Problem::NonUnitVariant };
    let second = Diagnostic {
        site: Site::Token(owner, a as usize, read_arguments(attributes_of(input, owner)[a])[j].name),
        problem: Problem::UnknownArgument,
    };
    let all = diagnostics(input);
    let i = choose|i: int| 0 <= i < all.len() && all[i] == first;
    let k = choose|k: int| 0 <= k < all.len() && all[k] == second;
    assert(i != k);
}

/// Without a `rename` among the first `n` arguments, the name stays.
proof fn lemma_arguments_keep_name(attribute: Attribute, n: int, before: Seq<char>)
    requires
        0 <= n <= read_arguments(attribute).len(),
        forall|j: int| 0 <= j < n ==> !renames(attribute, j),
    ensures
        name_after_arguments(attribute.tokens(), read_arguments(attribute), n, before) == before,
    decreases n,
{
    if n > 0 {
        lemma_arguments_keep_name(attribute, n - 1, before);
        assert(!renames(attribute, n - 1));
    }
}

/// The last `rename` among the first `n` arguments gives the name.
proof fn lemma_arguments_take_rename(attribute: Attribute, n: int, j: int, before: Seq<char>)
    requires
        0 <= j < n <= read_arguments(attribute).len(),
        renames(attribute, j),
        forall|k: int| j < k < n ==> !renames(attribute, k),
    ensures
        name_after_arguments(attribute.tokens(), read_arguments(attribute), n, before)
            == literal_of(attribute, j),
    decreases n,
{
    if j < n - 1 {
        lemma_arguments_take_rename(attribute, n - 1, j, before);
        assert(!renames(attribute, n - 1));
    }
}

/// Without a `rename` among the first `n` attributes, the name stays.
proof fn lemma_attributes_keep_name(attributes: Seq<Attribute>, n: int, before: Seq<char>)
    requires
        0 <= n <= attributes.len(),
        forall|a: int, j: int| 0 <= a < n ==> !#[trigger] renames(attributes[a], j),
    ensures
        name_after_attributes(attributes, n, before) == before,
    decreases n,
{
    if n > 0 {
        lemma_attributes_keep_name(attributes, n - 1, before);
        let last = attributes[n - 1];
        assert forall|j: int| 0 <= j < read_arguments(last).len() implies !renames(last, j) by {
            assert(!renames(attributes[n - 1], j));
        }
        lemma_arguments_keep_name(last, read_arguments(last).len() as int, before);
    }
}

/// The last `rename` among the first `n` attributes gives the name.
proof fn lemma_attributes_take_rename(
    attributes: Seq<Attribute>,
    n: int,
    a: int,
    j: int,
    before: Seq<char>,
)
    requires
        0 <= a < n <= attributes.len(),
        renames(attributes[a], j),
        forall|k: int| j < k ==> !renames(attributes[a], k),
        forall|b: int, k: int| a < b < n ==> !#[trigger] renames(attributes[b], k),
    ensures
        name_after_attributes(attributes, n, before) == literal_of(attributes[a], j),
    decreases n,
{
    let last = attributes[n - 1];
    let earlier = name_after_attributes(attributes, n - 1, before);
    if a < n - 1 {
        lemma_attributes_take_rename(attributes, n - 1, a, j, before);
        assert forall|k: int| 0 <= k < read_arguments(last).len() implies !renames(last, k) by {
            assert(!renames(attributes[n - 1], k));
        }
        lemma_arguments_keep_name(last, read_arguments(last).len() as int, earlier);
    } else {
        lemma_arguments_take_rename(last, read_arguments(last).len() as int, j, earlier);
    }
}

/// A variant without a `rename` goes by what the rule makes of its
/// identifier.
pub proof fn lemma_rule_names_variant(rule: RenameRule, variant: Variant)
    requires
        forall|a: int, j: int|
            0 <= a < variant.attrs@.len() ==> !#[trigger] renames(variant.attrs@[a], j),
    ensures
        canonical_name(rule, variant) == rule.renamed(variant.ident@),
{
    lemma_attributes_keep_name(
        variant.attrs@,
        variant.attrs@.len() as int,
        rule.renamed(variant.ident@),
    );
}

/// A variant's last `rename` gives its name, whatever the rule is.
pub proof fn lemma_rename_names_variant(rule: RenameRule, variant: Variant, a: int, j: int)
    requires
        0 <= a < variant.attrs@.len(),
        renames(variant.attrs@[a], j),
        forall|k: int| j < k ==> !renames(variant.attrs@[a], k),
        forall|b: int, k: int|
            a < b < variant.attrs@.len() ==> !#[trigger] renames(variant.attrs@[b], k),
    ensures
        canonical_name(rule, variant) == literal_of(variant.attrs@[a], j),
{
    lemma_attributes_take_rename(
        variant.attrs@,
        variant.attrs@.len() as int,
        a,
        j,
        rule.renamed(variant.ident@),
    );
}

/// Where no variant among the first `n` carries data, each gives one key, in
/// declaration order.
proof fn lemma_keys_of_unit_variants(rule: RenameRule, variants: Seq<Variant>, n: int)
    requires
        0 <= n <= variants.len(),
        forall|v: int| 0 <= v < n ==> (#[trigger] variants[v]).fields == Fields::Unit,
    ensures
        keys(rule, variants, n).len() == n,
        forall|v: int|
            0 <= v < n ==> #[trigger] keys(rule, variants, n)[v] == (
                variants[v].ident@,
                canonical_name(rule, variants[v]),
            ),
    decreases n,
{
    if n > 0 {
        lemma_keys_of_unit_variants(rule, variants, n - 1);
        assert(variants[n - 1].fields == Fields::Unit);
    }
}

/// Where nothing is reported of the first `n` variants, none of them carries
/// data.
proof fn lemma_silent_variants_are_units(variants: Seq<Variant>, n: int)
    requires
        0 <= n <= variants.len(),
        variants_diagnostics(variants, n).len() == 0,
    ensures
        forall|v: int| 0 <= v < n ==> (#[trigger] variants[v]).fields == Fields::Unit,
    decreases n,
{
    if n > 0 {
        lemma_silent_variants_are_units(variants, n - 1);
    }
}

/// A derivation that reports nothing describes one key per variant, in
/// declaration order: the key at an ordinal carries the identifier of the
/// variant at that position and its canonical name under the chosen rule.
pub proof fn lemma_keys_follow_declaration(input: Declaration)
    requires
        diagnostics(input).len() == 0,
    ensures
        input.shape is Enum,
        described_keys(input).len() == input.variants().len(),
        forall|v: int|
            0 <= v < input.variants().len() ==> {
                &&& (#[trigger] input.variants()[v]).fields == Fields::Unit
                &&& described_keys(input)[v] == (
                    input.variants()[v].ident@,
                    canonical_name(chosen_rule(input), input.variants()[v]),
                )
            },
{
    let variants = input.variants();
    lemma_silent_variants_are_units(variants, variants.len() as int);
    lemma_keys_of_unit_variants(chosen_rule(input), variants, variants.len() as int);
}

/// Attributes with other paths report nothing.
proof fn lemma_foreign_attributes_silent(owner: Owner, attributes: Seq<Attribute>, n: int)
    requires
        0 <= n <= attributes.len(),
        forall|a: int| 0 <= a < n ==> !(#[trigger] attributes[a]).is_ours(),
    ensures
        attributes_diagnostics(owner, attributes, n) == Seq::<Diagnostic>::empty(),
        rule_after_attributes(attributes, n) == RenameRule::Identity,
    decreases n,
{
    if n > 0 {
        lemma_foreign_attributes_silent(owner, attributes, n - 1);
        assert(!attributes[n - 1].is_ours());
        assert(attributes_diagnostics(owner, attributes, n - 1) + Seq::<Diagnostic>::empty()
            =~= Seq::<Diagnostic>::empty());
    }
}

/// Variants without data and without `enum_dict` attributes report nothing.
proof fn lemma_plain_variants_silent(variants: Seq<Variant>, n: int)
    requires
        0 <= n <= variants.len(),
        forall|v: int| 0 <= v < n ==> (#[trigger] variants[v]).fields == Fields::Unit,
        forall|v: int, a: int|
            0 <= v < n && 0 <= a < variants[v].attrs@.len() ==> !(
            #[trigger] variants[v].attrs@[a]).is_ours(),
    ensures
        variants_diagnostics(variants, n) == Seq::<Diagnostic>::empty(),
    decreases n,
{
    if n > 0 {
        lemma_plain_variants_silent(variants, n - 1);
        let last = variants[n - 1];
        assert(last.fields == Fields::Unit);
        assert forall|a: int| 0 <= a < last.attrs@.len() implies !(
        #[trigger] last.attrs@[a]).is_ours() by {
            assert(!variants[n - 1].attrs@[a].is_ours());
        }
        lemma_foreign_attributes_silent(
            Owner::Variant((n - 1) as usize),
            last.attrs@,
            last.attrs@.len() as int,
        );
        assert(variants_diagnostics(variants, n - 1) + Seq::<Diagnostic>::empty()
            =~= Seq::<Diagnostic>::empty());
    }
}

/// An enum of `N` variants without data, with no `enum_dict` attribute on it
/// or on a variant, has no problem and `N` keys; the key at an ordinal is the
/// variant at that position in the declaration and goes by the variant's own
/// identifier.
pub proof fn lemma_plain_enum_keys(input: Declaration)
    requires
        input.shape is Enum,
        forall|a: int| 0 <= a < input.attrs@.len() ==> !(#[trigger] input.attrs@[a]).is_ours(),
        forall|v: int|
            0 <= v < input.variants().len() ==> (#[trigger] input.variants()[v]).fields
                == Fields::Unit,
        forall|v: int, a: int|
            0 <= v < input.variants().len() && 0 <= a < input.variants()[v].attrs@.len() ==> !(
            #[trigger] input.variants()[v].attrs@[a]).is_ours(),
    ensures
        diagnostics(input).len() == 0,
        chosen_rule(input) == RenameRule::Identity,
        described_keys(input).len() == input.variants().len(),
        forall|v: int|
            0 <= v < input.variants().len() ==> #[trigger] described_keys(input)[v] == (
                input.variants()[v].ident@,
                input.variants()[v].ident@,
            ),
{
    let variants = input.variants();
    lemma_foreign_attributes_silent(Owner::Enum, input.attrs@, input.attrs@.len() as int);
    lemma_plain_variants_silent(variants, variants.len() as int);
    lemma_keys_of_unit_variants(RenameRule::Identity, variants, variants.len() as int);
    assert forall|v: int| 0 <= v < variants.len() implies #[trigger] described_keys(input)[v] == (
        variants[v].ident@,
        variants[v].ident@,
    ) by {
        let variant = variants[v];
        assert forall|a: int, j: int| 0 <= a < variant.attrs@.len() implies !#[trigger] renames(
            variant.attrs@[a],
            j,
        ) by {
            assert(!input.variants()[v].attrs@[a].is_ours());
        }
        lemma_rule_names_variant(RenameRule::Identity, variant);
    }
}

} // verus!
