use enum_dict::case::ParseError;
use enum_dict::case::RenameRule;

const IDENTIFIERS: [(&str, RenameRule); 8] = [
    ("lowercase", RenameRule::LowerCase),
    ("UPPERCASE", RenameRule::UpperCase),
    ("PascalCase", RenameRule::PascalCase),
    ("camelCase", RenameRule::CamelCase),
    ("snake_case", RenameRule::SnakeCase),
    ("SCREAMING_SNAKE_CASE", RenameRule::ScreamingSnakeCase),
    ("kebab-case", RenameRule::KebabCase),
    ("SCREAMING-KEBAB-CASE", RenameRule::ScreamingKebabCase),
];

#[test]
fn every_identifier_names_its_rule() {
    for (identifier, rule) in IDENTIFIERS {
        assert_eq!(RenameRule::from_str(identifier).ok(), Some(rule));
    }
}

#[test]
fn identifiers_are_matched_exactly() {
    for text in ["", "None", "Lowercase", "lowercase ", " lowercase", "snake-case", "kebab_case", "screaming_snake_case"] {
        let error = RenameRule::from_str(text).err().unwrap();
        assert_eq!(error.unknown(), text);
    }
}

#[test]
fn unknown_rule_message_lists_every_identifier() {
    let error = RenameRule::from_str("foo").err().unwrap();
    assert_eq!(
        error.to_string(),
        "unknown rename rule `rename_all = \"foo\"`, expected one of \"lowercase\", \"UPPERCASE\", \
         \"PascalCase\", \"camelCase\", \"snake_case\", \"SCREAMING_SNAKE_CASE\", \"kebab-case\", \
         \"SCREAMING-KEBAB-CASE\""
    );
}

#[test]
fn unknown_rule_message_escapes_the_identifier() {
    let error = ParseError::new("a\"b\n");
    assert_eq!(error.unknown(), "a\"b\n");
    assert!(error.to_string().starts_with("unknown rename rule `rename_all = \"a\\\"b\\n\"`, expected one of "));
}

#[test]
fn screaming_snake_camel_and_kebab() {
    assert_eq!(RenameRule::ScreamingSnakeCase.apply("FooBar"), "FOO_BAR");
    assert_eq!(RenameRule::CamelCase.apply("FooBar"), "fooBar");
    assert_eq!(RenameRule::KebabCase.apply("FooBar"), "foo-bar");
}

#[test]
fn every_rule_on_a_variant_name() {
    assert_eq!(RenameRule::Identity.apply("VariantName"), "VariantName");
    assert_eq!(RenameRule::LowerCase.apply("VariantName"), "variantname");
    assert_eq!(RenameRule::UpperCase.apply("VariantName"), "VARIANTNAME");
    assert_eq!(RenameRule::PascalCase.apply("VariantName"), "VariantName");
    assert_eq!(RenameRule::CamelCase.apply("VariantName"), "variantName");
    assert_eq!(RenameRule::SnakeCase.apply("VariantName"), "variant_name");
    assert_eq!(RenameRule::ScreamingSnakeCase.apply("VariantName"), "VARIANT_NAME");
    assert_eq!(RenameRule::KebabCase.apply("VariantName"), "variant-name");
    assert_eq!(RenameRule::ScreamingKebabCase.apply("VariantName"), "VARIANT-NAME");
}

#[test]
fn pascal_case_raises_the_first_letter() {
    assert_eq!(RenameRule::PascalCase.apply("fooBar"), "FooBar");
    assert_eq!(RenameRule::PascalCase.apply("foo_bar"), "FooBar");
}

#[test]
fn runs_of_capitals_are_one_word() {
    assert_eq!(RenameRule::SnakeCase.apply("XMLHttpRequest"), "xml_http_request");
    assert_eq!(RenameRule::ScreamingKebabCase.apply("XMLHttpRequest"), "XML-HTTP-REQUEST");
    assert_eq!(RenameRule::CamelCase.apply("XMLHttpRequest"), "xmlHttpRequest");
}

#[test]
fn ascii_rules_leave_other_letters() {
    assert_eq!(RenameRule::LowerCase.apply("ÀBc_D1"), "Àbc_d1");
    assert_eq!(RenameRule::UpperCase.apply("àBc_d1"), "àBC_D1");
    assert_eq!(RenameRule::LowerCase.apply("AZ@[`az{"), "az@[`az{");
    assert_eq!(RenameRule::UpperCase.apply("AZ@[`az{"), "AZ@[`AZ{");
}

#[test]
fn identity_rule_keeps_any_text() {
    for text in ["", "a b", "snake_case", "Ünïcödé"] {
        assert_eq!(RenameRule::Identity.apply(text), text);
    }
}
