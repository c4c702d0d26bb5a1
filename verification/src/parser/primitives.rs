//! The leaves of the grammar: numbers, identifiers, booleans, strings.

use super::agrees;
use crate::ast::Node;
use crate::chars::{
    decimal_value, lemma_run_is_maximal, lemma_run_len_of_wider_class, lemma_run_len_split,
    run_len, CharClass,
};
use crate::error::{Expected, ParseError, Token};
use crate::grammar;
use crate::scan::{
    accept, consumed, decimal, expect, lemma_remains_all, lemma_remains_twice, missing, remains,
    run,
};
use vstd::string::StringExecFns;
use vstd::prelude::*;

verus! {

/// Parses a number: the longest run of decimal digits.
///
/// Fails with `UnexpectedEndOfInput` on an empty text, with
/// `UnexpectedToken` where the first character is no digit, and with
/// `NumberOverflow` where the digits denote more than `i32::MAX`.
pub fn number(input: &str) -> (r: Result<(&str, Node), ParseError>)
    ensures
        agrees(input, r, grammar::number(input@)),
        r matches Ok((_, Node::Number { value })) ==> value == decimal_value(
            input@.take(run_len(input@, CharClass::Digit) as int),
        ),
        r matches Err(ParseError::NumberOverflow { .. }) <==> run_len(input@, CharClass::Digit) > 0
            && decimal_value(input@.take(run_len(input@, CharClass::Digit) as int)) > i32::MAX,
{
    match run(input, CharClass::Digit) {
        None => Err(missing(input, Expected::Digit)),
        Some((rest, digits)) => {
            proof {
                lemma_run_is_maximal(input@, CharClass::Digit);
            }
            match decimal(digits) {
                Some(value) => Ok((rest, Node::Number { value })),
                None => Err(ParseError::NumberOverflow { digits: digits.to_owned(), position: 0 }),
            }
        },
    }
}

/// Parses an identifier: the longest run of letters and digits.
///
/// Fails with `UnexpectedEndOfInput` on an empty text and with
/// `UnexpectedToken` where the first character is neither.
pub fn identifier(input: &str) -> (r: Result<(&str, Node), ParseError>)
    ensures
        agrees(input, r, grammar::identifier(input@)),
{
    match run(input, CharClass::Alphanumeric) {
        None => Err(missing(input, Expected::Alphanumeric)),
        Some((rest, name)) => Ok((rest, Node::Identifier { value: name.to_owned() })),
    }
}

/// Parses `true` or `false`.
pub fn boolean(input: &str) -> (r: Result<(&str, Node), ParseError>)
    ensures
        agrees(input, r, grammar::boolean(input@)),
{
    proof {
        lemma_remains_all(input);
    }
    match accept(input, Token::True) {
        Some(rest) => Ok((rest, Node::Bool { value: true })),
        None => match accept(input, Token::False) {
            Some(rest) => Ok((rest, Node::Bool { value: false })),
            None => Err(missing(input, Expected::Boolean)),
        },
    }
}

/// Parses a string literal: letters, digits, spaces and tabs between two
/// quotes, at least one of them. The node holds them as they stand.
///
/// Fails with `UnterminatedString` where no quote follows the content, and
/// with `UnexpectedToken` where the content is empty.
pub fn string(input: &str) -> (r: Result<(&str, Node), ParseError>)
    ensures
        agrees(input, r, grammar::string(input@)),
{
    proof {
        lemma_remains_all(input);
    }
    let start = match expect(input, Token::Quote) {
        Ok(rest) => rest,
        Err(e) => {
            return Err(e);
        },
    };
    let mut value = String::new();
    let mut rest = start;
    let ghost mut n: nat = 0;
    proof {
        lemma_remains_all(start);
        assert(start@.take(0) =~= Seq::<char>::empty());
    }
    loop
        invariant
            remains(start, rest, n),
            value@ == start@.take(n as int),
            run_len(start@, CharClass::Text) == n + run_len(rest@, CharClass::Text),
        ensures
            remains(start, rest, n),
            value@ == start@.take(n as int),
            run_len(start@, CharClass::Text) == n,
        decreases rest@.len(),
    {
        let found = match run(rest, CharClass::Alphanumeric) {
            Some(alphanumeric) => Some(alphanumeric),
            None => run(rest, CharClass::Blank),
        };
        match found {
            None => {
                break ;
            },
            Some((next, piece)) => {
                proof {
                    let class = if run_len(rest@, CharClass::Alphanumeric) > 0 {
                        CharClass::Alphanumeric
                    } else {
                        CharClass::Blank
                    };
                    let k = run_len(rest@, class);
                    lemma_run_len_of_wider_class(rest@, class, CharClass::Text);
                    lemma_run_len_split(rest@, CharClass::Text, k);
                    lemma_remains_twice(start, rest, next, n, k);
                    assert(start@.take(n as int) + piece@ =~= start@.take((n + k) as int));
                    n = n + k;
                }
                value.append(piece);
                rest = next;
            },
        }
    }
    proof {
        lemma_remains_twice(input, start, rest, 1, n);
    }
    match accept(rest, Token::Quote) {
        None => Err(
            ParseError::UnterminatedString { position: consumed(input, rest, Ghost(1 + n)) },
        ),
        Some(end) => {
            proof {
                lemma_remains_twice(input, rest, end, 1 + n, 1);
            }
            if consumed(start, rest, Ghost(n)) == 0 {
                Err(ParseError::UnexpectedToken { expected: Expected::Text, position: 1 })
            } else {
                Ok((end, Node::String { value }))
            }
        },
    }
}

/// Parses a comment word: a run of letters and digits, of which the node
/// keeps nothing.
pub fn comment(input: &str) -> (r: Result<(&str, Node), ParseError>)
    ensures
        agrees(input, r, grammar::comment(input@)),
{
    match identifier(input) {
        Ok((rest, _)) => Ok((rest, Node::Identifier { value: String::new() })),
        Err(e) => Err(e),
    }
}

} // verus!
