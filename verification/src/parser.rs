//! The parsers: one function for each rule of the grammar.
//!
//! A parser takes the text that is still to be read and returns what remains
//! of it behind the rule, together with the node that the rule built; or the
//! failure. Each is proved to compute the function of the same name in
//! [`crate::grammar`].

pub mod expressions;
pub mod primitives;
pub mod program;
pub mod statements;

pub use expressions::{
    arguments, expression, function_call, l1, l1_infix, l2, l2_infix, l3, l3_infix, l4,
    math_expression, parenthetical_expression,
};
pub use primitives::{boolean, comment, identifier, number, string};
pub use program::{parse, program};
pub use statements::{function_definition, function_return, statement, variable_define};

use crate::ast::{trees_of, Node, Tree};
use crate::error::{Failure, ParseError, Token};
use crate::grammar;
use crate::grammar::Parsed;
use crate::scan::{expect, lemma_remains_twice, rebase, remains, spaces};
use crate::chars::{run_len, CharClass};
use vstd::prelude::*;

verus! {

/// Whether a parser's result on `input` is what the grammar says.
///
/// On success the node models the grammar's tree, and what remains is
/// `input` without the characters that the grammar consumed, of which there
/// is at least one and each of which is a single byte. On failure the
/// failure is the grammar's, and lies inside `input`.
pub open spec fn agrees(
    input: &str,
    r: Result<(&str, Node), ParseError>,
    model: Parsed,
) -> bool {
    match r {
        Ok((rest, node)) => model matches Ok((tree, n)) && node@ == tree && 0 < n && remains(
            input,
            rest,
            n,
        ),
        Err(e) => model matches Err(failure) && e@ == failure && failure.within(input@.len()),
    }
}

/// Whether the result of [`parse`] is what the grammar says of the whole
/// text.
pub open spec fn answers(r: Result<Node, ParseError>, model: Result<Tree, Failure>) -> bool {
    match r {
        Ok(root) => model == Ok::<Tree, Failure>(root@),
        Err(e) => model == Err::<Tree, Failure>(e@),
    }
}

/// Restates the result of a parser that ran on `start`, which is what
/// remains of `input` after `at` characters, in the coordinates of `input`.
fn lift<'a>(
    r: Result<(&'a str, Node), ParseError>,
    input: &str,
    start: &str,
    Ghost(at): Ghost<nat>,
    Ghost(model): Ghost<Parsed>,
) -> (out: Result<(&'a str, Node), ParseError>)
    requires
        remains(input, start, at),
        agrees(start, r, model),
    ensures
        agrees(input, out, grammar::moved(model, at)),
        out is Ok ==> out == r,
{
    match r {
        Ok((rest, node)) => {
            proof {
                lemma_remains_twice(input, start, rest, at, model->Ok_0.1);
            }
            Ok((rest, node))
        },
        Err(e) => Err(rebase(e, input, start, Ghost(at))),
    }
}

/// The trees of a list that grew by one node.
proof fn lemma_trees_push(nodes: Seq<Node>, node: Node)
    ensures
        trees_of(nodes.push(node)) == trees_of(nodes).push(node@),
{
    assert(trees_of(nodes.push(node)) =~= trees_of(nodes).push(node@));
}

/// A list of one node.
fn single(node: Node) -> (list: Vec<Node>)
    ensures
        trees_of(list@) == seq![node@],
{
    let mut list: Vec<Node> = Vec::new();
    list.push(node);
    assert(trees_of(list@) =~= seq![node@]);
    list
}

/// Puts `first` in front of `rest`.
fn prepend(first: Node, rest: Vec<Node>) -> (list: Vec<Node>)
    ensures
        trees_of(list@) == seq![first@] + trees_of(rest@),
{
    let mut list = rest;
    list.insert(0, first);
    assert(trees_of(list@) =~= seq![first@] + trees_of(rest@));
    list
}

/// Puts `tail` behind `head`.
fn concat(head: Vec<Node>, tail: Vec<Node>) -> (list: Vec<Node>)
    ensures
        trees_of(list@) == trees_of(head@) + trees_of(tail@),
{
    let mut list = head;
    let mut rest = tail;
    list.append(&mut rest);
    assert(trees_of(list@) =~= trees_of(head@) + trees_of(tail@));
    list
}

/// A list of two nodes.
fn pair(first: Node, second: Node) -> (list: Vec<Node>)
    ensures
        trees_of(list@) == seq![first@, second@],
{
    let mut list: Vec<Node> = Vec::new();
    list.push(first);
    list.push(second);
    assert(trees_of(list@) =~= seq![first@, second@]);
    list
}

/// Skips the spaces at `rest`, which is what remains of `input` after
/// `at` characters.
fn skip_spaces<'a>(input: &str, rest: &'a str, Ghost(at): Ghost<nat>) -> (next: &'a str)
    requires
        remains(input, rest, at),
    ensures
        remains(input, next, grammar::past_spaces(input@, at)),
{
    let next = spaces(rest);
    proof {
        lemma_remains_twice(input, rest, next, at, run_len(rest@, CharClass::Space));
    }
    next
}

/// Takes `wanted` off `rest`, which is what remains of `input` after `at`
/// characters, or says in the coordinates of `input` that it is missing.
fn expect_at<'a>(input: &str, rest: &'a str, wanted: Token, Ghost(at): Ghost<nat>) -> (r: Result<
    &'a str,
    ParseError,
>)
    requires
        remains(input, rest, at),
    ensures
        r is Ok <==> grammar::token_at(input@, at, wanted),
        r matches Ok(next) ==> remains(input, next, at + wanted.text().len()),
        r matches Err(e) ==> e@ == grammar::lacks(input@, at, wanted) && e@.within(input@.len()),
{
    match expect(rest, wanted) {
        Ok(next) => {
            proof {
                lemma_remains_twice(input, rest, next, at, wanted.text().len());
            }
            Ok(next)
        },
        Err(e) => Err(rebase(e, input, rest, Ghost(at))),
    }
}

} // verus!
