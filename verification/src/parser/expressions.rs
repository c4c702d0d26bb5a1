//! Expressions: function calls, arguments, and the three levels of infix
//! operators above the atoms.

use super::primitives::{boolean, identifier, number, string};
use super::{agrees, lemma_trees_push, lift, prepend, single};
use crate::ast::{trees_of, Node, Tree};
use crate::chars::{after, run_len, CharClass};
use crate::error::{Delimiter, Expected, Failure, ParseError, Token};
use crate::grammar;
use crate::grammar::Level;
use crate::scan::{
    accept, consumed, expect, lemma_remains_all, lemma_remains_twice, missing, rebase, remains,
    run, spaces,
};
use vstd::prelude::*;

verus! {

/// A list of expressions ends where no comma follows, or no expression
/// follows the comma.
proof fn lemma_more_expressions_end(s: Seq<char>)
    requires
        !grammar::token_at(s, 0, Token::Comma) || grammar::expression(after(s, 1)) is Err,
    ensures
        grammar::more_expressions(s) == (Seq::<Tree>::empty(), 0nat),
{
}

/// A list of expressions goes on where a comma and an expression follow.
proof fn lemma_more_expressions_step(s: Seq<char>, next: Tree, k: nat)
    requires
        grammar::token_at(s, 0, Token::Comma),
        grammar::expression(after(s, 1)) == Ok::<(Tree, nat), Failure>((next, k)),
    ensures
        grammar::more_expressions(s).0 == seq![next] + grammar::more_expressions(
            after(s, 1 + k),
        ).0,
        grammar::more_expressions(s).1 == 1 + k + grammar::more_expressions(after(s, 1 + k)).1,
{
}

impl Level {
    /// Takes an operator of this level off the start of `input`, if one is
    /// there.
    fn operator<'a>(self, input: &'a str) -> (r: Option<(&'a str, Token)>)
        ensures
            r is Some <==> self.operator_at(input@) is Some,
            r matches Some((rest, found)) ==> self.operator_at(input@) == Some(found) && remains(
                input,
                rest,
                1,
            ),
    {
        let (first, second) = match self {
            Level::Additive => (Token::Plus, Token::Minus),
            Level::Multiplicative => (Token::Star, Token::Slash),
            Level::Power => (Token::Caret, Token::Caret),
        };
        match accept(input, first) {
            Some(rest) => Some((rest, first)),
            None => match accept(input, second) {
                Some(rest) => Some((rest, second)),
                None => None,
            },
        }
    }
}

/// Completes an operator node that lacks its left operand: `head` becomes
/// its first child.
fn join(head: Node, partial: Node) -> (joined: Node)
    ensures
        joined@ == grammar::fold(head@, partial@),
{
    match partial {
        Node::MathExpression { name, children } => Node::MathExpression {
            name,
            children: prepend(head, children),
        },
        _ => head,
    }
}

/// Parses an expression: the first that matches of a function call, a
/// boolean, a string literal, an arithmetic expression, a number and an
/// identifier. The node is an `Expression` with that one child.
pub fn expression(input: &str) -> (r: Result<(&str, Node), ParseError>)
    ensures
        agrees(input, r, grammar::expression(input@)),
    decreases input@.len(), 37nat,
{
    let failure = match function_call(input) {
        Ok((rest, inner)) => {
            return Ok((rest, Node::Expression { children: single(inner) }));
        },
        Err(e) => e,
    };
    let failure = match boolean(input) {
        Ok((rest, inner)) => {
            return Ok((rest, Node::Expression { children: single(inner) }));
        },
        Err(e) => failure.furthest(e),
    };
    let failure = match string(input) {
        Ok((rest, inner)) => {
            return Ok((rest, Node::Expression { children: single(inner) }));
        },
        Err(e) => failure.furthest(e),
    };
    let failure = match math_expression(input) {
        Ok((rest, inner)) => {
            return Ok((rest, Node::Expression { children: single(inner) }));
        },
        Err(e) => failure.furthest(e),
    };
    let failure = match number(input) {
        Ok((rest, inner)) => {
            return Ok((rest, Node::Expression { children: single(inner) }));
        },
        Err(e) => failure.furthest(e),
    };
    match identifier(input) {
        Ok((rest, inner)) => Ok((rest, Node::Expression { children: single(inner) })),
        Err(e) => Err(failure.furthest(e)),
    }
}

/// Parses a function call: a name and, with nothing in between, its
/// arguments. The node carries the name and has the arguments as its child.
pub fn function_call(input: &str) -> (r: Result<(&str, Node), ParseError>)
    ensures
        agrees(input, r, grammar::function_call(input@)),
    decreases input@.len(), 3nat,
{
    let (rest, name) = match run(input, CharClass::Alphanumeric) {
        Some(found) => found,
        None => {
            return Err(missing(input, Expected::Alphanumeric));
        },
    };
    let ghost k = run_len(input@, CharClass::Alphanumeric);
    match lift(arguments(rest), input, rest, Ghost(k), Ghost(grammar::arguments(rest@))) {
        Ok((end, list)) => Ok(
            (end, Node::FunctionCall { name: name.to_owned(), children: single(list) }),
        ),
        Err(e) => Err(e),
    }
}

/// Parses arguments: `(`, expressions separated by `,`, `)`. There may be
/// none. The node has the expressions as its children.
///
/// Fails with `UnbalancedDelimiter` where `)` does not follow the list.
pub fn arguments(input: &str) -> (r: Result<(&str, Node), ParseError>)
    ensures
        agrees(input, r, grammar::arguments(input@)),
    decreases input@.len(), 2nat,
{
    proof {
        lemma_remains_all(input);
    }
    let start = match expect(input, Token::OpenParen) {
        Ok(rest) => rest,
        Err(e) => {
            return Err(e);
        },
    };
    let mut items: Vec<Node> = Vec::new();
    let mut rest = start;
    let ghost mut k: nat = 0;
    proof {
        lemma_remains_all(start);
        assert(trees_of(items@) =~= Seq::<Tree>::empty());
    }
    match expression(start) {
        Err(_) => {},
        Ok((next, first)) => {
            proof {
                k = grammar::expression(start@)->Ok_0.1;
                lemma_trees_push(items@, first);
            }
            items.push(first);
            rest = next;
            loop
                invariant
                    remains(start, rest, k),
                    start@.len() < input@.len(),
                    grammar::expression_list(start@).0 == trees_of(items@)
                        + grammar::more_expressions(rest@).0,
                    grammar::expression_list(start@).1 == k + grammar::more_expressions(rest@).1,
                ensures
                    remains(start, rest, k),
                    grammar::expression_list(start@).0 == trees_of(items@),
                    grammar::expression_list(start@).1 == k,
                decreases rest@.len(),
            {
                let behind = match accept(rest, Token::Comma) {
                    Some(behind) => behind,
                    None => {
                        proof {
                            lemma_remains_all(rest);
                            lemma_more_expressions_end(rest@);
                        }
                        break ;
                    },
                };
                match expression(behind) {
                    Err(_) => {
                        proof {
                            lemma_remains_all(rest);
                            lemma_more_expressions_end(rest@);
                        }
                        break ;
                    },
                    Ok((next, node)) => {
                        proof {
                            let j = grammar::expression(behind@)->Ok_0.1;
                            lemma_remains_all(rest);
                            lemma_remains_twice(rest, behind, next, 1, j);
                            lemma_remains_twice(start, rest, next, k, 1 + j);
                            lemma_more_expressions_step(rest@, node@, j);
                            lemma_trees_push(items@, node);
                            let more = grammar::more_expressions(next@).0;
                            assert(trees_of(items@) + (seq![node@] + more) =~= trees_of(
                                items@,
                            ).push(node@) + more);
                            k = k + 1 + j;
                        }
                        items.push(node);
                        rest = next;
                    },
                }
            }
        },
    }
    proof {
        lemma_remains_twice(input, start, rest, 1, k);
    }
    match accept(rest, Token::CloseParen) {
        Some(end) => {
            proof {
                lemma_remains_twice(input, rest, end, 1 + k, 1);
            }
            Ok((end, Node::FunctionArguments { children: items }))
        },
        None => Err(
            ParseError::UnbalancedDelimiter {
                kind: Delimiter::Paren,
                position: consumed(input, rest, Ghost(1 + k)),
            },
        ),
    }
}

/// Parses an arithmetic expression: operands joined by `+ - * / ^`, with
/// `^` binding tightest and `+ -` loosest, each level grouping to the left.
pub fn math_expression(input: &str) -> (r: Result<(&str, Node), ParseError>)
    ensures
        agrees(input, r, grammar::math_expression(input@)),
    decreases input@.len(), 36nat,
{
    l1(input)
}

/// One level of operators: an operand of the next tighter level, then
/// every continuation of this level, each folded onto what was built so
/// far as its left operand.
fn climb(level: Level, input: &str) -> (r: Result<(&str, Node), ParseError>)
    ensures
        agrees(input, r, grammar::climb(level, input@)),
    decreases input@.len(), level.rank() + 4,
{
    let (first_rest, first) = match operand(level, input) {
        Ok(found) => found,
        Err(e) => {
            return Err(e);
        },
    };
    let mut rest = first_rest;
    let mut head = first;
    let ghost mut k: nat = grammar::operand(level, input@)->Ok_0.1;
    loop
        invariant
            remains(input, rest, k),
            0 < k,
            grammar::climb(level, input@) == Ok::<(Tree, nat), Failure>(
                (
                    grammar::continued(level, rest@, head@).0,
                    k + grammar::continued(level, rest@, head@).1,
                ),
            ),
        ensures
            remains(input, rest, k),
            0 < k,
            grammar::climb(level, input@) == Ok::<(Tree, nat), Failure>((head@, k)),
        decreases rest@.len(),
    {
        match infix(level, rest) {
            Err(_) => {
                break ;
            },
            Ok((next, partial)) => {
                proof {
                    let j = grammar::infix(level, rest@)->Ok_0.1;
                    lemma_remains_twice(input, rest, next, k, j);
                    k = k + j;
                }
                head = join(head, partial);
                rest = next;
            },
        }
    }
    Ok((rest, head))
}

/// One continuation of a level: spaces, an operator of the level, spaces,
/// an operand of the next tighter level.
fn infix(level: Level, input: &str) -> (r: Result<(&str, Node), ParseError>)
    ensures
        agrees(input, r, grammar::infix(level, input@)),
    decreases input@.len(), level.rank() + 2,
{
    let before = spaces(input);
    let ghost a = run_len(input@, CharClass::Space);
    proof {
        lemma_remains_all(input);
    }
    let (behind, operator) = match level.operator(before) {
        Some(found) => found,
        None => {
            return Err(rebase(missing(before, Expected::Operator), input, before, Ghost(a)));
        },
    };
    proof {
        lemma_remains_twice(input, before, behind, a, 1);
    }
    let start = spaces(behind);
    let ghost b = grammar::past_spaces(input@, a + 1);
    proof {
        lemma_remains_twice(input, behind, start, a + 1, run_len(behind@, CharClass::Space));
    }
    match lift(
        operand(level, start),
        input,
        start,
        Ghost(b),
        Ghost(grammar::operand(level, start@)),
    ) {
        Ok((end, right)) => Ok(
            (
                end,
                Node::MathExpression {
                    name: operator.as_str().to_owned(),
                    children: single(right),
                },
            ),
        ),
        Err(e) => Err(e),
    }
}

/// An operand of a level: the next tighter level, and an atom below the
/// tightest.
fn operand(level: Level, input: &str) -> (r: Result<(&str, Node), ParseError>)
    ensures
        agrees(input, r, grammar::operand(level, input@)),
    decreases input@.len(), level.rank() + 1,
{
    match level {
        Level::Additive => l2(input),
        Level::Multiplicative => l3(input),
        Level::Power => l4(input),
    }
}

/// Parses the loosest level: operands of [`l2`] joined by `+` and `-`.
pub fn l1(input: &str) -> (r: Result<(&str, Node), ParseError>)
    ensures
        agrees(input, r, grammar::climb(Level::Additive, input@)),
    decreases input@.len(), 35nat,
{
    climb(Level::Additive, input)
}

/// Parses one continuation of [`l1`]: `+` or `-` and an operand of [`l2`],
/// with spaces as one likes before and after the operator. The node is the
/// operator's, with the operand as its only child.
pub fn l1_infix(input: &str) -> (r: Result<(&str, Node), ParseError>)
    ensures
        agrees(input, r, grammar::infix(Level::Additive, input@)),
{
    infix(Level::Additive, input)
}

/// Parses the middle level: operands of [`l3`] joined by `*` and `/`.
pub fn l2(input: &str) -> (r: Result<(&str, Node), ParseError>)
    ensures
        agrees(input, r, grammar::climb(Level::Multiplicative, input@)),
    decreases input@.len(), 25nat,
{
    climb(Level::Multiplicative, input)
}

/// Parses one continuation of [`l2`]: `*` or `/` and an operand of [`l3`].
pub fn l2_infix(input: &str) -> (r: Result<(&str, Node), ParseError>)
    ensures
        agrees(input, r, grammar::infix(Level::Multiplicative, input@)),
{
    infix(Level::Multiplicative, input)
}

/// Parses the tightest level: atoms of [`l4`] joined by `^`.
pub fn l3(input: &str) -> (r: Result<(&str, Node), ParseError>)
    ensures
        agrees(input, r, grammar::climb(Level::Power, input@)),
    decreases input@.len(), 15nat,
{
    climb(Level::Power, input)
}

/// Parses one continuation of [`l3`]: `^` and an atom of [`l4`].
pub fn l3_infix(input: &str) -> (r: Result<(&str, Node), ParseError>)
    ensures
        agrees(input, r, grammar::infix(Level::Power, input@)),
{
    infix(Level::Power, input)
}

/// Parses an atom: the first that matches of a parenthesised expression, a
/// number, an identifier and a function call.
pub fn l4(input: &str) -> (r: Result<(&str, Node), ParseError>)
    ensures
        agrees(input, r, grammar::atom(input@)),
    decreases input@.len(), 4nat,
{
    let failure = match parenthetical_expression(input) {
        Ok(found) => {
            return Ok(found);
        },
        Err(e) => e,
    };
    let failure = match number(input) {
        Ok(found) => {
            return Ok(found);
        },
        Err(e) => failure.furthest(e),
    };
    let failure = match identifier(input) {
        Ok(found) => {
            return Ok(found);
        },
        Err(e) => failure.furthest(e),
    };
    match function_call(input) {
        Ok(found) => Ok(found),
        Err(e) => Err(failure.furthest(e)),
    }
}

/// Parses an arithmetic expression between `(` and `)`. The node is that
/// of the expression inside.
///
/// Fails with `UnbalancedDelimiter` where `)` does not follow the
/// expression.
pub fn parenthetical_expression(input: &str) -> (r: Result<(&str, Node), ParseError>)
    ensures
        agrees(input, r, grammar::parenthetical_expression(input@)),
    decreases input@.len(), 3nat,
{
    proof {
        lemma_remains_all(input);
    }
    let start = match expect(input, Token::OpenParen) {
        Ok(rest) => rest,
        Err(e) => {
            return Err(e);
        },
    };
    let (rest, inner) = match lift(
        math_expression(start),
        input,
        start,
        Ghost(1),
        Ghost(grammar::math_expression(start@)),
    ) {
        Ok(found) => found,
        Err(e) => {
            return Err(e);
        },
    };
    let ghost n = grammar::moved(grammar::math_expression(start@), 1)->Ok_0.1;
    match accept(rest, Token::CloseParen) {
        Some(end) => {
            proof {
                lemma_remains_twice(input, rest, end, n, 1);
            }
            Ok((end, inner))
        },
        None => Err(
            ParseError::UnbalancedDelimiter {
                kind: Delimiter::Paren,
                position: consumed(input, rest, Ghost(n)),
            },
        ),
    }
}

} // verus!
