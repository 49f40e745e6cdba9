//! The grammar of an attribute's argument list.
//!
//! A list is a sequence of arguments separated by commas, with an optional
//! comma after the last. An argument is an identifier, alone or followed by
//! `=` and a value. A value runs up to the next comma or the end of the list
//! and holds at least one token.

use vstd::prelude::*;

use crate::declaration::Token;

verus! {

/// The value of an argument.
#[derive(Copy, Clone, PartialEq, Eq, Debug, Structural)]
pub enum Value {
    /// The argument is a bare identifier.
    Missing,
    /// The value is one string literal, the token at this index.
    Literal(usize),
    /// The value is anything else.
    Other,
}

/// One argument of a list. Tokens are referred to by their index in the list.
#[derive(Copy, Clone, PartialEq, Eq, Debug, Structural)]
pub struct Argument {
    /// The index of the argument's identifier.
    pub name: usize,
    /// What follows the identifier.
    pub value: Value,
}

/// What the grammar wanted where a list broke it.
#[derive(Copy, Clone, PartialEq, Eq, Debug, Structural)]
pub enum Expected {
    /// An identifier, at the start of an argument.
    Identifier,
    /// A comma, or the end of the list, after an argument.
    Comma,
    /// A value, after `=`.
    Value,
}

/// The first place at which a list breaks the grammar.
#[derive(Copy, Clone, PartialEq, Eq, Debug, Structural)]
pub struct SyntaxError {
    /// The index of the offending token; the length of the list where the
    /// list ends too early.
    pub at: usize,
    /// What was wanted there.
    pub expected: Expected,
}

/// The index of the first comma at or after `from`, or the length of the list
/// if there is none.
pub open spec fn value_end(tokens: Seq<Token>, from: int) -> int
    decreases tokens.len() - from,
{
    if from >= tokens.len() {
        tokens.len() as int
    } else if tokens[from] is Comma {
        from
    } else {
        value_end(tokens, from + 1)
    }
}

/// The value that the tokens from `from` up to `end` make.
pub open spec fn value_of(tokens: Seq<Token>, from: int, end: int) -> Value {
    if end == from + 1 && tokens[from] is Literal {
        Value::Literal(from as usize)
    } else {
        Value::Other
    }
}

/// Where the next argument starts after a value that ends at `end`: behind
/// the comma, if there is one.
pub open spec fn after_value(tokens: Seq<Token>, end: int) -> int {
    if end < tokens.len() {
        end + 1
    } else {
        tokens.len() as int
    }
}

/// `first` ahead of what `rest` holds; the error of `rest` where it is one.
pub open spec fn preceded(first: Seq<Argument>, rest: Result<Seq<Argument>, SyntaxError>) -> Result<
    Seq<Argument>,
    SyntaxError,
> {
    match rest {
        Ok(arguments) => Ok(first + arguments),
        Err(error) => Err(error),
    }
}

/// The arguments that the tokens from `pos` on spell, or the first error.
pub open spec fn arguments_from(tokens: Seq<Token>, pos: int) -> Result<Seq<Argument>, SyntaxError>
    decreases tokens.len() - pos,
{
    if pos < 0 || pos >= tokens.len() {
        Ok(Seq::empty())
    } else if !(tokens[pos] is Ident) {
        Err(SyntaxError { at: pos as usize, expected: Expected::Identifier })
    } else if pos + 1 >= tokens.len() {
        Ok(seq![Argument { name: pos as usize, value: Value::Missing }])
    } else if tokens[pos + 1] is Comma {
        preceded(
            seq![Argument { name: pos as usize, value: Value::Missing }],
            arguments_from(tokens, pos + 2),
        )
    } else if tokens[pos + 1] is Equals {
        if value_end(tokens, pos + 2) <= pos + 2 {
            Err(SyntaxError { at: (pos + 2) as usize, expected: Expected::Value })
        } else {
            preceded(
                seq![
                    Argument {
                        name: pos as usize,
                        value: value_of(tokens, pos + 2, value_end(tokens, pos + 2)),
                    },
                ],
                arguments_from(tokens, after_value(tokens, value_end(tokens, pos + 2))),
            )
        }
    } else {
        Err(SyntaxError { at: (pos + 1) as usize, expected: Expected::Comma })
    }
}

/// The arguments that a whole list spells, or the first error in it.
pub open spec fn arguments(tokens: Seq<Token>) -> Result<Seq<Argument>, SyntaxError> {
    arguments_from(tokens, 0)
}

/// Whether `argument` points at an identifier of `tokens`, and at a string
/// literal where its value is one.
pub open spec fn placed(tokens: Seq<Token>, argument: Argument) -> bool {
    &&& argument.name < tokens.len()
    &&& tokens[argument.name as int] is Ident
    &&& argument.value matches Value::Literal(at) ==> {
        &&& at < tokens.len()
        &&& tokens[at as int] is Literal
    }
}

/// A value ends at or after its start and within the list.
pub proof fn lemma_value_end_bounds(tokens: Seq<Token>, from: int)
    requires
        0 <= from <= tokens.len(),
    ensures
        from <= value_end(tokens, from) <= tokens.len(),
        value_end(tokens, from) < tokens.len() ==> tokens[value_end(tokens, from)] is Comma,
        forall|i: int| from <= i < value_end(tokens, from) ==> !(#[trigger] tokens[i] is Comma),
    decreases tokens.len() - from,
{
    if from < tokens.len() && !(tokens[from] is Comma) {
        lemma_value_end_bounds(tokens, from + 1);
    }
}

/// Every argument that a list spells points into the list.
pub proof fn lemma_arguments_placed(tokens: Seq<Token>, pos: int)
    requires
        0 <= pos <= tokens.len() <= usize::MAX,
    ensures
        arguments_from(tokens, pos) matches Ok(list) ==> forall|j: int|
            0 <= j < list.len() ==> placed(tokens, #[trigger] list[j]) && pos <= list[j].name,
    decreases tokens.len() - pos,
{
    if pos < tokens.len() && tokens[pos] is Ident && pos + 1 < tokens.len() {
        if tokens[pos + 1] is Comma {
            lemma_arguments_placed(tokens, pos + 2);
        } else if tokens[pos + 1] is Equals {
            lemma_value_end_bounds(tokens, pos + 2);
            let end = value_end(tokens, pos + 2);
            if end > pos + 2 {
                lemma_arguments_placed(tokens, after_value(tokens, end));
            }
        }
    }
}

/// Whether `token` is an identifier.
fn is_ident(token: &Token) -> (yes: bool)
    ensures
        yes == (*token is Ident),
{
    match token {
        Token::Ident(_) => true,
        _ => false,
    }
}

/// Whether `token` is a comma.
fn is_comma(token: &Token) -> (yes: bool)
    ensures
        yes == (*token is Comma),
{
    match token {
        Token::Comma => true,
        _ => false,
    }
}

/// Whether `token` is a lone `=`.
fn is_equals(token: &Token) -> (yes: bool)
    ensures
        yes == (*token is Equals),
{
    match token {
        Token::Equals => true,
        _ => false,
    }
}

/// Whether `token` is a string literal.
fn is_literal(token: &Token) -> (yes: bool)
    ensures
        yes == (*token is Literal),
{
    match token {
        Token::Literal(_) => true,
        _ => false,
    }
}

/// Finds where the value that starts at `from` ends.
fn find_value_end(tokens: &Vec<Token>, from: usize) -> (end: usize)
    requires
        from <= tokens.len(),
    ensures
        end == value_end(tokens@, from as int),
        from <= end <= tokens.len(),
{
    let mut end = from;
    while end < tokens.len() && !is_comma(&tokens[end])
        invariant
            from <= end <= tokens.len(),
            value_end(tokens@, from as int) == value_end(tokens@, end as int),
        decreases tokens.len() - end,
    {
        end += 1;
    }
    end
}

/// Parses an attribute's argument list.
pub fn parse_arguments(tokens: &Vec<Token>) -> (parsed: Result<Vec<Argument>, SyntaxError>)
    ensures
        match parsed {
            Ok(list) => arguments(tokens@) == Ok::<Seq<Argument>, SyntaxError>(list@),
            Err(error) => arguments(tokens@) == Err::<Seq<Argument>, SyntaxError>(error),
        },
        parsed matches Ok(list) ==> forall|j: int|
            0 <= j < list@.len() ==> placed(tokens@, #[trigger] list@[j]),
        parsed matches Err(error) ==> error.at <= tokens@.len(),
{
    let mut list: Vec<Argument> = Vec::new();
    let mut pos: usize = 0;
    while pos < tokens.len()
        invariant
            pos <= tokens.len(),
            arguments(tokens@) == preceded(list@, arguments_from(tokens@, pos as int)),
        decreases tokens.len() - pos,
    {
        let ghost before = list@;
        let ghost rest = arguments_from(tokens@, pos as int);
        if !is_ident(&tokens[pos]) {
            return Err(SyntaxError { at: pos, expected: Expected::Identifier });
        }
        if pos + 1 >= tokens.len() {
            list.push(Argument { name: pos, value: Value::Missing });
            proof {
                assert(before + seq![Argument { name: pos, value: Value::Missing }] =~= list@);
                assert(list@ + Seq::<Argument>::empty() =~= list@);
            }
            pos = tokens.len();
        } else if is_comma(&tokens[pos + 1]) {
            list.push(Argument { name: pos, value: Value::Missing });
            proof {
                let first = seq![Argument { name: pos, value: Value::Missing }];
                assert(before + first =~= list@);
                match arguments_from(tokens@, pos + 2) {
                    Ok(more) => {
                        assert(before + (first + more) =~= list@ + more);
                    },
                    Err(_) => {},
                }
            }
            pos = pos + 2;
        } else if is_equals(&tokens[pos + 1]) {
            let end = find_value_end(tokens, pos + 2);
            if end <= pos + 2 {
                return Err(SyntaxError { at: pos + 2, expected: Expected::Value });
            }
            let value = if end == pos + 3 && is_literal(&tokens[pos + 2]) {
                Value::Literal(pos + 2)
            } else {
                Value::Other
            };
            list.push(Argument { name: pos, value });
            proof {
                let first = seq![Argument { name: pos, value }];
                assert(before + first =~= list@);
                match arguments_from(tokens@, after_value(tokens@, end as int)) {
                    Ok(more) => {
                        assert(before + (first + more) =~= list@ + more);
                    },
                    Err(_) => {},
                }
            }
            if end < tokens.len() {
                pos = end + 1;
            } else {
                pos = end;
            }
        } else {
            return Err(SyntaxError { at: pos + 1, expected: Expected::Comma });
        }
    }
    proof {
        assert(list@ + Seq::<Argument>::empty() =~= list@);
        lemma_arguments_placed(tokens@, 0);
    }
    Ok(list)
}

} // verus!
