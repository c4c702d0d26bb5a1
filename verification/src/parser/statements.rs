//! Statements and function definitions.

use super::expressions::{arguments, expression};
use super::primitives::identifier;
use super::{agrees, concat, expect_at, lemma_trees_push, lift, pair, prepend, single, skip_spaces};
use crate::ast::{trees_of, Node, Tree};
use crate::chars::after;
use crate::error::{Delimiter, ParseError, Token};
use crate::grammar;
use crate::scan::{accept, consumed, lemma_remains_all, lemma_remains_twice, rebase, remains};
use vstd::prelude::*;

verus! {

/// Parses a variable definition: `let` and one space, a name, `=` with
/// spaces around it as one likes, an expression. The node has the name and
/// the expression as its children.
pub fn variable_define(input: &str) -> (r: Result<(&str, Node), ParseError>)
    ensures
        agrees(input, r, grammar::variable_define(input@)),
{
    proof {
        reveal(grammar::variable_define);
    }
    proof {
        lemma_remains_all(input);
    }
    let start = match expect_at(input, input, Token::Let, Ghost(0)) {
        Ok(rest) => rest,
        Err(e) => {
            return Err(e);
        },
    };
    let (rest, name) = match lift(
        identifier(start),
        input,
        start,
        Ghost(4),
        Ghost(grammar::identifier(start@)),
    ) {
        Ok(found) => found,
        Err(e) => {
            return Err(e);
        },
    };
    let ghost p = grammar::moved(grammar::identifier(start@), 4)->Ok_0.1;
    let rest = skip_spaces(input, rest, Ghost(p));
    let ghost q = grammar::past_spaces(input@, p);
    let rest = match expect_at(input, rest, Token::Assign, Ghost(q)) {
        Ok(rest) => rest,
        Err(e) => {
            return Err(e);
        },
    };
    let rest = skip_spaces(input, rest, Ghost(q + 1));
    let ghost at = grammar::past_spaces(input@, q + 1);
    match lift(expression(rest), input, rest, Ghost(at), Ghost(grammar::expression(rest@))) {
        Ok((end, value)) => Ok((end, Node::VariableDefine { children: pair(name, value) })),
        Err(e) => Err(e),
    }
}

/// Parses a return: `return`, spaces as one likes, an expression. The
/// node has the expression as its child. The `;` is left to the statement.
pub fn function_return(input: &str) -> (r: Result<(&str, Node), ParseError>)
    ensures
        agrees(input, r, grammar::function_return(input@)),
{
    proof {
        reveal(grammar::function_return);
    }
    proof {
        lemma_remains_all(input);
    }
    let start = match expect_at(input, input, Token::Return, Ghost(0)) {
        Ok(rest) => rest,
        Err(e) => {
            return Err(e);
        },
    };
    let rest = skip_spaces(input, start, Ghost(6));
    let ghost at = grammar::past_spaces(input@, 6);
    match lift(expression(rest), input, rest, Ghost(at), Ghost(grammar::expression(rest@))) {
        Ok((end, value)) => Ok((end, Node::FunctionReturn { children: single(value) })),
        Err(e) => Err(e),
    }
}

/// Parses a statement: a return or a variable definition, and `;`. The
/// node has the return or the definition as its child.
pub fn statement(input: &str) -> (r: Result<(&str, Node), ParseError>)
    ensures
        agrees(input, r, grammar::statement(input@)),
{
    proof {
        reveal(grammar::statement);
    }
    let (rest, inner) = match function_return(input) {
        Ok(found) => found,
        Err(first) => match variable_define(input) {
            Ok(found) => found,
            Err(second) => {
                return Err(first.furthest(second));
            },
        },
    };
    let ghost n = grammar::either(
        grammar::function_return(input@),
        grammar::variable_define(input@),
    )->Ok_0.1;
    match expect_at(input, rest, Token::Semicolon, Ghost(n)) {
        Ok(end) => Ok((end, Node::Statement { children: single(inner) })),
        Err(e) => Err(e),
    }
}

/// One item of a function body: a statement or, failing that, an
/// expression.
fn body_item(input: &str) -> (r: Result<(&str, Node), ParseError>)
    ensures
        agrees(input, r, grammar::body_item(input@)),
{
    proof {
        reveal(grammar::body_item);
    }
    match statement(input) {
        Ok(found) => Ok(found),
        Err(first) => match expression(input) {
            Ok(found) => Ok(found),
            Err(second) => Err(first.furthest(second)),
        },
    }
}

/// The head of a function definition: `fn`, the name, and the arguments
/// inside a further pair of parentheses.
fn function_head(input: &str) -> (r: Result<(&str, Node, Node), ParseError>)
    ensures
        match r {
            Ok((rest, name, list)) => grammar::function_head(input@) matches Ok((n, l, len))
                && name@ == n && list@ == l && 0 < len && remains(input, rest, len),
            Err(e) => grammar::function_head(input@) matches Err(failure) && e@ == failure
                && failure.within(input@.len()),
        },
{
    proof {
        reveal(grammar::function_head);
    }
    proof {
        lemma_remains_all(input);
    }
    let start = match expect_at(input, input, Token::Fn, Ghost(0)) {
        Ok(rest) => rest,
        Err(e) => {
            return Err(e);
        },
    };
    let rest = skip_spaces(input, start, Ghost(2));
    let ghost p = grammar::past_spaces(input@, 2);
    let (rest, name) = match lift(
        identifier(rest),
        input,
        rest,
        Ghost(p),
        Ghost(grammar::identifier(rest@)),
    ) {
        Ok(found) => found,
        Err(e) => {
            return Err(e);
        },
    };
    let ghost q = grammar::moved(grammar::identifier(after(input@, p)), p)->Ok_0.1;
    let rest = skip_spaces(input, rest, Ghost(q));
    let ghost at = grammar::past_spaces(input@, q);
    let rest = match expect_at(input, rest, Token::OpenParen, Ghost(at)) {
        Ok(rest) => rest,
        Err(e) => {
            return Err(e);
        },
    };
    let (rest, list) = match lift(
        arguments(rest),
        input,
        rest,
        Ghost(at + 1),
        Ghost(grammar::arguments(rest@)),
    ) {
        Ok(found) => found,
        Err(e) => {
            return Err(e);
        },
    };
    let ghost n = grammar::moved(grammar::arguments(after(input@, at + 1)), at + 1)->Ok_0.1;
    match accept(rest, Token::CloseParen) {
        Some(end) => {
            proof {
                lemma_remains_twice(input, rest, end, n, 1);
            }
            Ok((end, name, list))
        },
        None => Err(
            ParseError::UnbalancedDelimiter {
                kind: Delimiter::Paren,
                position: consumed(input, rest, Ghost(n)),
            },
        ),
    }
}

/// Body items that follow one another directly, as many as there are.
fn body_items<'a>(input: &'a str) -> (r: (&'a str, Vec<Node>))
    ensures
        remains(input, r.0, grammar::body_items(input@).1),
        trees_of(r.1@) == grammar::body_items(input@).0,
{
    let mut found: Vec<Node> = Vec::new();
    let mut rest = input;
    let ghost mut k: nat = 0;
    proof {
        lemma_remains_all(input);
        assert(trees_of(found@) =~= Seq::<Tree>::empty());
        assert(Seq::<Tree>::empty() + grammar::body_items(input@).0 =~= grammar::body_items(input@).0);
    }
    loop
        invariant
            remains(input, rest, k),
            grammar::body_items(input@).0 == trees_of(found@) + grammar::body_items(rest@).0,
            grammar::body_items(input@).1 == k + grammar::body_items(rest@).1,
        ensures
            remains(input, rest, k),
            grammar::body_items(input@).0 == trees_of(found@),
            grammar::body_items(input@).1 == k,
        decreases rest@.len(),
    {
        match body_item(rest) {
            Err(_) => {
                proof {
                    assert(trees_of(found@) + Seq::<Tree>::empty() =~= trees_of(found@));
                }
                break ;
            },
            Ok((behind, node)) => {
                proof {
                    let j = grammar::body_item(rest@)->Ok_0.1;
                    lemma_remains_twice(input, rest, behind, k, j);
                    lemma_trees_push(found@, node);
                    let more = grammar::body_items(behind@).0;
                    assert(trees_of(found@) + (seq![node@] + more) =~= trees_of(found@).push(
                        node@,
                    ) + more);
                    k = k + j;
                }
                found.push(node);
                rest = behind;
            },
        }
    }
    (rest, found)
}

/// The body of a function definition: `{`, one body item or more, `}`,
/// with spaces as one likes inside the braces at either end and after the
/// body.
fn function_body(input: &str) -> (r: Result<(&str, Vec<Node>), ParseError>)
    ensures
        match r {
            Ok((rest, items)) => grammar::function_body(input@) matches Ok((trees, len))
                && trees_of(items@) == trees && 0 < len && remains(input, rest, len),
            Err(e) => grammar::function_body(input@) matches Err(failure) && e@ == failure
                && failure.within(input@.len()),
        },
{
    proof {
        reveal(grammar::function_body);
    }
    proof {
        lemma_remains_all(input);
    }
    let start = match expect_at(input, input, Token::OpenBrace, Ghost(0)) {
        Ok(rest) => rest,
        Err(e) => {
            return Err(e);
        },
    };
    let start = skip_spaces(input, start, Ghost(1));
    let ghost p = grammar::past_spaces(input@, 1);
    let (rest, first) = match lift(
        body_item(start),
        input,
        start,
        Ghost(p),
        Ghost(grammar::body_item(start@)),
    ) {
        Ok(found) => found,
        Err(e) => {
            return Err(e);
        },
    };
    let ghost q = grammar::moved(grammar::body_item(after(input@, p)), p)->Ok_0.1;
    let (behind, more) = body_items(rest);
    let ghost m = grammar::body_items(rest@).1;
    proof {
        lemma_remains_twice(input, rest, behind, q, m);
    }
    let behind = skip_spaces(input, behind, Ghost(q + m));
    let ghost at = grammar::past_spaces(input@, q + m);
    match accept(behind, Token::CloseBrace) {
        Some(end) => {
            proof {
                lemma_remains_twice(input, behind, end, at, 1);
            }
            let end = skip_spaces(input, end, Ghost(at + 1));
            Ok((end, prepend(first, more)))
        },
        None => Err(
            ParseError::UnbalancedDelimiter {
                kind: Delimiter::Brace,
                position: consumed(input, behind, Ghost(at)),
            },
        ),
    }
}

/// Parses a function definition: `fn`, a name, the arguments inside a
/// further pair of parentheses, and a body of one or more statements and
/// expressions in braces. The node has as its children the name, the
/// arguments, and then the items of the body.
///
/// Fails with `UnbalancedDelimiter` where the `)` or the `}` is not where
/// it belongs.
pub fn function_definition(input: &str) -> (r: Result<(&str, Node), ParseError>)
    ensures
        agrees(input, r, grammar::function_definition(input@)),
{
    proof {
        reveal(grammar::function_definition);
    }
    let (rest, name, list) = match function_head(input) {
        Ok(found) => found,
        Err(e) => {
            return Err(e);
        },
    };
    let ghost p = grammar::function_head(input@)->Ok_0.2;
    let rest = skip_spaces(input, rest, Ghost(p));
    let ghost q = grammar::past_spaces(input@, p);
    match function_body(rest) {
        Ok((end, items)) => {
            proof {
                lemma_remains_twice(input, rest, end, q, grammar::function_body(rest@)->Ok_0.1);
            }
            Ok((end, Node::FunctionDefine { children: concat(pair(name, list), items) }))
        },
        Err(e) => Err(rebase(e, input, rest, Ghost(q))),
    }
}

} // verus!
