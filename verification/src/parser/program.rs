//! Programs and whole texts.

use super::expressions::expression;
use super::statements::{function_definition, statement};
use super::{agrees, answers, lemma_trees_push, prepend};
use crate::ast::{trees_of, Node, Tree};
use crate::chars::{lemma_run_len_of_wider_class, lemma_run_len_split, run_len, CharClass};
use crate::error::{ParseError, Token};
use crate::grammar;
use crate::scan::{accept, consumed, lemma_remains_all, lemma_remains_twice, remains, run};
use vstd::prelude::*;

verus! {

/// One item of a program: a function definition or, failing that, a
/// statement or, failing that, an expression.
fn item(input: &str) -> (r: Result<(&str, Node), ParseError>)
    ensures
        agrees(input, r, grammar::item(input@)),
{
    proof {
        reveal(grammar::item);
    }
    let failure = match function_definition(input) {
        Ok(found) => {
            return Ok(found);
        },
        Err(e) => e,
    };
    let failure = match statement(input) {
        Ok(found) => {
            return Ok(found);
        },
        Err(e) => failure.furthest(e),
    };
    match expression(input) {
        Ok(found) => Ok(found),
        Err(e) => Err(failure.furthest(e)),
    }
}

/// Program items that follow one another directly, as many as there are.
fn items<'a>(input: &'a str) -> (r: (&'a str, Vec<Node>))
    ensures
        remains(input, r.0, grammar::items(input@).1),
        trees_of(r.1@) == grammar::items(input@).0,
{
    let mut found: Vec<Node> = Vec::new();
    let mut rest = input;
    let ghost mut k: nat = 0;
    proof {
        lemma_remains_all(input);
        assert(trees_of(found@) =~= Seq::<Tree>::empty());
        assert(Seq::<Tree>::empty() + grammar::items(input@).0 =~= grammar::items(input@).0);
    }
    loop
        invariant
            remains(input, rest, k),
            grammar::items(input@).0 == trees_of(found@) + grammar::items(rest@).0,
            grammar::items(input@).1 == k + grammar::items(rest@).1,
        ensures
            remains(input, rest, k),
            grammar::items(input@).0 == trees_of(found@),
            grammar::items(input@).1 == k,
        decreases rest@.len(),
    {
        match item(rest) {
            Err(_) => {
                proof {
                    assert(trees_of(found@) + Seq::<Tree>::empty() =~= trees_of(found@));
                }
                break ;
            },
            Ok((behind, node)) => {
                proof {
                    let j = grammar::item(rest@)->Ok_0.1;
                    lemma_remains_twice(input, rest, behind, k, j);
                    lemma_trees_push(found@, node);
                    let more = grammar::items(behind@).0;
                    assert(trees_of(found@) + (seq![node@] + more) =~= trees_of(found@).push(
                        node@,
                    ) + more);
                    k = k + j;
                }
                found.push(node);
                rest = behind;
            },
        }
    }
    (rest, found)
}

/// Parses a program: function definitions, statements and expressions,
/// one directly after the other, at least one. It stops where none of the
/// three matches, and what remains is returned with the `Program` node.
pub fn program(input: &str) -> (r: Result<(&str, Node), ParseError>)
    ensures
        agrees(input, r, grammar::program(input@)),
{
    proof {
        reveal(grammar::program);
    }
    let (rest, first) = match item(input) {
        Ok(found) => found,
        Err(e) => {
            return Err(e);
        },
    };
    let ghost k = grammar::item(input@)->Ok_0.1;
    let (end, more) = items(rest);
    proof {
        lemma_remains_twice(input, rest, end, k, grammar::items(rest@).1);
    }
    Ok((end, Node::Program { children: prepend(first, more) }))
}

/// Parses a whole text: a program and, after it, nothing but white space
/// (spaces, tabs, line feeds, carriage returns).
///
/// Fails with the program's failure, or with `TrailingInput` at the first
/// character after the program that is no white space.
pub fn parse(input: &str) -> (r: Result<Node, ParseError>)
    ensures
        answers(r, grammar::parse(input@)),
{
    let (start, root) = match program(input) {
        Ok(found) => found,
        Err(e) => {
            return Err(e);
        },
    };
    let ghost n = grammar::program(input@)->Ok_0.1;
    let mut rest = start;
    let ghost mut w: nat = 0;
    proof {
        lemma_remains_all(start);
    }
    loop
        invariant
            remains(start, rest, w),
            run_len(start@, CharClass::Whitespace) == w + run_len(rest@, CharClass::Whitespace),
        ensures
            remains(start, rest, w),
            run_len(start@, CharClass::Whitespace) == w,
        decreases rest@.len(),
    {
        let (next, step): (&str, Ghost<nat>) = match run(rest, CharClass::Blank) {
            Some((next, _)) => {
                proof {
                    lemma_run_len_of_wider_class(rest@, CharClass::Blank, CharClass::Whitespace);
                }
                (next, Ghost(run_len(rest@, CharClass::Blank)))
            },
            None => match accept(rest, Token::LineFeed) {
                Some(next) => {
                    proof {
                        assert(rest@[0] == rest@.take(1)[0]);
                        assert(run_len(rest@, CharClass::Whitespace) >= 1);
                    }
                    (next, Ghost(1nat))
                },
                None => match accept(rest, Token::CarriageReturn) {
                    Some(next) => {
                        proof {
                            assert(rest@[0] == rest@.take(1)[0]);
                            assert(run_len(rest@, CharClass::Whitespace) >= 1);
                        }
                        (next, Ghost(1nat))
                    },
                    None => {
                        proof {
                            if rest@.len() > 0 {
                                assert(rest@.take(1) =~= seq![rest@[0]]);
                            }
                        }
                        break ;
                    },
                },
            },
        };
        proof {
            lemma_run_len_split(rest@, CharClass::Whitespace, step@);
            lemma_remains_twice(start, rest, next, w, step@);
            w = w + step@;
        }
        rest = next;
    }
    proof {
        lemma_remains_twice(input, start, rest, n, w);
    }
    if rest.is_empty() {
        Ok(root)
    } else {
        Err(ParseError::TrailingInput { position: consumed(input, rest, Ghost(n + w)) })
    }
}

} // verus!
