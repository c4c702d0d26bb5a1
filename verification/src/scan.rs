//! The scanner: tokens and runs of characters at the start of a text.
//!
//! The recognisers themselves are `nom`'s. This module states what they
//! return and builds on that the few scanning steps that the grammar is
//! composed of.

use crate::chars::{
    after, decimal_value, lemma_ascii_prefix_bytes, lemma_chars_le_bytes, lemma_encode_concat,
    lemma_one_byte_each_is_ascii, lemma_run_is_ascii, lemma_run_is_maximal, lemma_run_len_bound,
    lemma_token_is_ascii, run_len, starts_with, CharClass,
};
use crate::error::{Expected, Failure, ParseError, Token};
use nom::bytes::complete::tag;
use nom::character::complete::{alphanumeric1, digit1, space1};
use vstd::prelude::*;
use vstd::string::StringSliceAdditionalSpecFns;
use vstd::utf8::{is_ascii_chars, is_ascii_chars_encode_utf8};

verus! {

/// `nom::Err`, the error side of every result that `nom` returns. Nothing is
/// read from it: a failed recogniser is told from a successful one, no more.
#[verifier::external_type_specification]
#[verifier::external_body]
#[verifier::reject_recursive_types(E)]
pub struct ExNomErr<E>(nom::Err<E>);

/// `nom::bytes::complete::tag` on string slices.
///
/// The contract claims: the call succeeds exactly when `input` begins with
/// `text`; it then returns what follows `text` in `input`, and the matched
/// part, which reads as `text` does.
#[verifier::external_body]
fn nom_tag<'a>(text: &str, input: &'a str) -> (r: Result<(&'a str, &'a str), nom::Err<()>>)
    ensures
        r is Ok <==> starts_with(input@, text@),
        r matches Ok((rest, hit)) ==> hit@ == text@ && rest@ == after(input@, text@.len()),
{
    tag::<&str, &str, ()>(text)(input)
}

/// `nom::character::complete::digit1` on a string slice.
///
/// The contract claims: the call succeeds exactly when `input` begins with a
/// decimal digit; it then returns the longest prefix of decimal digits, and
/// before it what follows that prefix.
#[verifier::external_body]
fn nom_digit1<'a>(input: &'a str) -> (r: Result<(&'a str, &'a str), nom::Err<()>>)
    ensures
        r is Ok <==> run_len(input@, CharClass::Digit) > 0,
        r matches Ok((rest, hit)) ==> hit@ == input@.take(run_len(input@, CharClass::Digit) as int)
            && rest@ == after(input@, run_len(input@, CharClass::Digit)),
{
    digit1::<&str, ()>(input)
}

/// `nom::character::complete::alphanumeric1` on a string slice.
///
/// The contract claims: the call succeeds exactly when `input` begins with
/// an ASCII letter or decimal digit; it then returns the longest prefix of
/// such characters, and before it what follows that prefix.
#[verifier::external_body]
fn nom_alphanumeric1<'a>(input: &'a str) -> (r: Result<(&'a str, &'a str), nom::Err<()>>)
    ensures
        r is Ok <==> run_len(input@, CharClass::Alphanumeric) > 0,
        r matches Ok((rest, hit)) ==> hit@ == input@.take(
            run_len(input@, CharClass::Alphanumeric) as int,
        ) && rest@ == after(input@, run_len(input@, CharClass::Alphanumeric)),
{
    alphanumeric1::<&str, ()>(input)
}

/// `nom::character::complete::space1` on a string slice.
///
/// The contract claims: the call succeeds exactly when `input` begins with a
/// space or a tab; it then returns the longest prefix of spaces and tabs, and
/// before it what follows that prefix.
#[verifier::external_body]
fn nom_space1<'a>(input: &'a str) -> (r: Result<(&'a str, &'a str), nom::Err<()>>)
    ensures
        r is Ok <==> run_len(input@, CharClass::Blank) > 0,
        r matches Ok((rest, hit)) ==> hit@ == input@.take(run_len(input@, CharClass::Blank) as int)
            && rest@ == after(input@, run_len(input@, CharClass::Blank)),
{
    space1::<&str, ()>(input)
}

/// `rest` is what remains of `input` after its first `n` characters, and
/// each of those characters takes a single byte.
pub open spec fn remains(input: &str, rest: &str, n: nat) -> bool {
    &&& n <= input@.len()
    &&& rest@ == input@.skip(n as int)
    &&& rest.spec_bytes().len() + n == input.spec_bytes().len()
}

/// What remains of what remains.
pub proof fn lemma_remains_twice(input: &str, middle: &str, rest: &str, n: nat, k: nat)
    requires
        remains(input, middle, n),
        remains(middle, rest, k),
    ensures
        remains(input, rest, n + k),
        after(input@, n + k) == rest@,
        after(after(input@, n), k) == rest@,
{
    assert(input@.skip(n as int).skip(k as int) =~= input@.skip((n + k) as int));
}

/// What has been consumed is ASCII.
pub proof fn lemma_consumed_text_is_ascii(input: &str, rest: &str, n: nat)
    requires
        remains(input, rest, n),
    ensures
        is_ascii_chars(input@.take(n as int)),
{
    assert(input@ =~= input@.take(n as int) + input@.skip(n as int));
    lemma_encode_concat(input@.take(n as int), input@.skip(n as int));
    lemma_one_byte_each_is_ascii(input@.take(n as int));
}

/// Nothing has been consumed yet.
pub proof fn lemma_remains_all(input: &str)
    ensures
        remains(input, input, 0),
        after(input@, 0) == input@,
{
    assert(input@.skip(0) =~= input@);
}

/// The failure of a rule that cannot even start: the text is empty, or its
/// first character is not what the rule begins with.
pub open spec fn miss(s: Seq<char>, expected: Expected) -> Failure {
    if s.len() == 0 {
        Failure::UnexpectedEndOfInput
    } else {
        Failure::UnexpectedToken { expected, position: 0 }
    }
}

/// The failure of a rule that cannot start on `input`.
pub(crate) fn missing(input: &str, expected: Expected) -> (e: ParseError)
    ensures
        e@ == miss(input@, expected),
        e@.within(input@.len()),
{
    if input.is_empty() {
        ParseError::UnexpectedEndOfInput
    } else {
        ParseError::UnexpectedToken { expected, position: 0 }
    }
}

/// Takes `token` off the start of `input`, if it is there.
pub(crate) fn accept<'a>(input: &'a str, wanted: Token) -> (r: Option<&'a str>)
    ensures
        r is Some <==> starts_with(input@, wanted.text()),
        r matches Some(rest) ==> remains(input, rest, wanted.text().len()),
{
    match nom_tag(wanted.as_str(), input) {
        Ok((rest, _)) => {
            proof {
                lemma_token_is_ascii(wanted);
                lemma_ascii_prefix_bytes(input@, wanted.text().len());
            }
            Some(rest)
        },
        Err(_) => None,
    }
}

/// Takes `token` off the start of `input`, or says that it is missing.
pub(crate) fn expect<'a>(input: &'a str, wanted: Token) -> (r: Result<&'a str, ParseError>)
    ensures
        r is Ok <==> starts_with(input@, wanted.text()),
        r matches Ok(rest) ==> remains(input, rest, wanted.text().len()),
        r matches Err(e) ==> e@ == miss(input@, Expected::Literal(wanted)) && e@.within(
            input@.len(),
        ),
{
    match accept(input, wanted) {
        Some(rest) => Ok(rest),
        None => Err(missing(input, Expected::Literal(wanted))),
    }
}

/// Takes the longest run of `class` off the start of `input`, if it is not
/// empty: the result holds what follows the run, then the run.
pub(crate) fn run<'a>(input: &'a str, class: CharClass) -> (r: Option<(&'a str, &'a str)>)
    requires
        class == CharClass::Digit || class == CharClass::Alphanumeric || class == CharClass::Blank,
    ensures
        r is Some <==> run_len(input@, class) > 0,
        r matches Some((rest, hit)) ==> {
            &&& hit@ == input@.take(run_len(input@, class) as int)
            &&& remains(input, rest, run_len(input@, class))
            &&& is_ascii_chars(hit@)
        },
{
    let found = match class {
        CharClass::Digit => nom_digit1(input),
        CharClass::Alphanumeric => nom_alphanumeric1(input),
        _ => nom_space1(input),
    };
    match found {
        Ok((rest, hit)) => {
            proof {
                lemma_run_len_bound(input@, class);
                lemma_run_is_maximal(input@, class);
                lemma_run_is_ascii(hit@, class);
                lemma_ascii_prefix_bytes(input@, run_len(input@, class));
            }
            Some((rest, hit))
        },
        Err(_) => None,
    }
}

/// Skips the spaces at the start of `input`.
pub(crate) fn spaces<'a>(input: &'a str) -> (rest: &'a str)
    ensures
        remains(input, rest, run_len(input@, CharClass::Space)),
{
    let mut rest = input;
    let ghost mut n: nat = 0;
    proof {
        lemma_remains_all(input);
    }
    loop
        invariant
            remains(input, rest, n),
            run_len(input@, CharClass::Space) == n + run_len(rest@, CharClass::Space),
        ensures
            remains(input, rest, run_len(input@, CharClass::Space)),
        decreases rest@.len(),
    {
        match accept(rest, Token::Space) {
            Some(next) => {
                proof {
                    lemma_remains_twice(input, rest, next, n, 1);
                    assert(rest@.drop_first() =~= next@);
                    assert(rest@[0] == rest@.take(1)[0]);
                    n = n + 1;
                }
                rest = next;
            },
            None => {
                proof {
                    if rest@.len() > 0 {
                        assert(rest@.take(1) =~= seq![rest@[0]]);
                    }
                }
                break ;
            },
        }
    }
    rest
}

/// How many characters lie between the start of `input` and `rest`.
pub(crate) fn consumed(input: &str, rest: &str, Ghost(n): Ghost<nat>) -> (k: usize)
    requires
        remains(input, rest, n),
    ensures
        k == n,
        k + rest@.len() <= usize::MAX,
{
    proof {
        lemma_chars_le_bytes(rest@);
    }
    input.as_bytes().len() - rest.as_bytes().len()
}

/// Restates a failure of a rule that ran on `rest` in the coordinates of
/// `input`.
pub(crate) fn rebase(e: ParseError, input: &str, rest: &str, Ghost(n): Ghost<nat>) -> (moved: ParseError)
    requires
        remains(input, rest, n),
        e@.within(rest@.len()),
    ensures
        moved@ == e@.shifted(n),
        moved@.within(input@.len()),
{
    let by = consumed(input, rest, Ghost(n));
    e.shifted(by)
}

/// Reads a run of decimal digits as a number, unless it is too large for an
/// `i32`.
pub(crate) fn decimal(digits: &str) -> (value: Option<i32>)
    requires
        forall|i: int| 0 <= i < digits@.len() ==> CharClass::Digit.admits(#[trigger] digits@[i]),
    ensures
        value is Some <==> decimal_value(digits@) <= i32::MAX,
        value matches Some(v) ==> v == decimal_value(digits@),
{
    let bytes = digits.as_bytes();
    proof {
        lemma_run_is_ascii(digits@, CharClass::Digit);
        is_ascii_chars_encode_utf8(digits@);
    }
    let mut total: i64 = 0;
    let mut i: usize = 0;
    assert(digits@.take(0) =~= Seq::<char>::empty());
    while i < bytes.len()
        invariant
            i <= bytes.len(),
            bytes@.len() == digits@.len(),
            forall|j: int| 0 <= j < digits@.len() ==> digits@[j] as u8 == #[trigger] bytes@[j],
            forall|j: int|
                0 <= j < digits@.len() ==> CharClass::Digit.admits(#[trigger] digits@[j]),
            total == decimal_value(digits@.take(i as int)),
            0 <= total <= i32::MAX,
        decreases bytes.len() - i,
    {
        let byte = bytes[i];
        assert(CharClass::Digit.admits(digits@[i as int]));
        assert(digits@[i as int] as u8 == byte);
        let digit: i64 = (byte - 48) as i64;
        let next: i64 = total * 10 + digit;
        proof {
            let longer = digits@.take(i + 1);
            assert(longer.drop_last() =~= digits@.take(i as int));
            assert(longer.last() == digits@[i as int]);
            assert(next == decimal_value(longer));
        }
        if next > 2147483647 {
            proof {
                lemma_decimal_value_grows(digits@, (i + 1) as nat);
            }
            return None;
        }
        total = next;
        i += 1;
    }
    assert(digits@.take(i as int) =~= digits@);
    Some(total as i32)
}

/// The value of a run of digits is at least the value of each of its
/// prefixes.
pub proof fn lemma_decimal_value_grows(digits: Seq<char>, n: nat)
    requires
        n <= digits.len(),
    ensures
        decimal_value(digits.take(n as int)) <= decimal_value(digits),
    decreases digits.len(),
{
    if n == digits.len() {
        assert(digits.take(n as int) =~= digits);
    } else {
        lemma_decimal_value_grows(digits.drop_last(), n);
        assert(digits.drop_last().take(n as int) =~= digits.take(n as int));
    }
}

} // verus!
