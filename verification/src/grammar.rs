//! The grammar, as mathematics.
//!
//! Each rule is a function from a text to either a tree together with the
//! number of characters that the rule consumed, or a failure whose position
//! counts from the start of that text. Alternatives are tried in order and
//! the first that matches wins; a repetition goes on while its element
//! matches. The executable parsers are proved to compute these functions.

use crate::ast::Tree;
use crate::chars::{after, decimal_value, run_len, starts_with, CharClass};
use crate::error::{furthest, Delimiter, Expected, Failure, Token};
use crate::scan::miss;
use vstd::prelude::*;

verus! {

/// What a rule makes of a text: a tree and the number of characters
/// consumed, or a failure.
pub type Parsed = Result<(Tree, nat), Failure>;

/// What a repetition makes of a text: the trees of its elements and the
/// number of characters consumed. A repetition cannot fail: it ends.
pub type Repeated = (Seq<Tree>, nat);

/// One of the three levels of infix operators, loosest first.
#[derive(Debug, Clone, Copy, PartialEq, Eq, Structural)]
pub enum Level {
    /// `+` and `-`.
    Additive,
    /// `*` and `/`.
    Multiplicative,
    /// `^`.
    Power,
}

/// Ordered choice: the first result if it is a match, else the second if it
/// is one, else whichever failure got further.
pub open spec fn either(first: Parsed, second: Parsed) -> Parsed {
    match first {
        Ok(_) => first,
        Err(earlier) => match second {
            Ok(_) => second,
            Err(later) => Err(furthest(earlier, later)),
        },
    }
}

/// The result of a rule that ran on what follows the first `by` characters
/// of a text, in the coordinates of that text.
pub open spec fn moved(r: Parsed, by: nat) -> Parsed {
    match r {
        Ok((tree, n)) => Ok((tree, by + n)),
        Err(failure) => Err(failure.shifted(by)),
    }
}

/// Whether consuming `n` characters of `s` is a step forward inside `s`.
/// Every successful rule of this grammar takes such a step.
pub open spec fn advances(s: Seq<char>, n: nat) -> bool {
    0 < n <= s.len()
}

/// Whether `token` stands in `s` at offset `at`.
pub open spec fn token_at(s: Seq<char>, at: nat, token: Token) -> bool {
    starts_with(after(s, at), token.text())
}

/// The failure to find `token` in `s` at offset `at`.
pub open spec fn lacks(s: Seq<char>, at: nat, token: Token) -> Failure {
    miss(after(s, at), Expected::Literal(token)).shifted(at)
}

/// The offset of the first character of `s` at or after `at` that is not a
/// space.
pub open spec fn past_spaces(s: Seq<char>, at: nat) -> nat {
    at + run_len(after(s, at), CharClass::Space)
}

/// A number: the longest run of decimal digits, which must not be empty and
/// must denote a value that an `i32` can hold.
pub open spec fn number(s: Seq<char>) -> Parsed {
    let n = run_len(s, CharClass::Digit);
    if n == 0 {
        Err(miss(s, Expected::Digit))
    } else if decimal_value(s.take(n as int)) > i32::MAX {
        Err(Failure::NumberOverflow { digits: s.take(n as int), position: 0 })
    } else {
        Ok((Tree::Number { value: decimal_value(s.take(n as int)) as i32 }, n))
    }
}

/// An identifier: the longest run of letters and digits, which must not be
/// empty.
pub open spec fn identifier(s: Seq<char>) -> Parsed {
    let n = run_len(s, CharClass::Alphanumeric);
    if n == 0 {
        Err(miss(s, Expected::Alphanumeric))
    } else {
        Ok((Tree::Identifier { value: s.take(n as int) }, n))
    }
}

/// A boolean: `true` or `false`.
pub open spec fn boolean(s: Seq<char>) -> Parsed {
    if token_at(s, 0, Token::True) {
        Ok((Tree::Bool { value: true }, 4))
    } else if token_at(s, 0, Token::False) {
        Ok((Tree::Bool { value: false }, 5))
    } else {
        Err(miss(s, Expected::Boolean))
    }
}

/// A string literal: a quote, the longest run of letters, digits, spaces and
/// tabs, which must not be empty, and a quote.
pub open spec fn string(s: Seq<char>) -> Parsed {
    if !token_at(s, 0, Token::Quote) {
        Err(lacks(s, 0, Token::Quote))
    } else {
        let n = run_len(after(s, 1), CharClass::Text);
        if !token_at(s, 1 + n, Token::Quote) {
            Err(Failure::UnterminatedString { position: 1 + n })
        } else if n == 0 {
            Err(Failure::UnexpectedToken { expected: Expected::Text, position: 1 })
        } else {
            Ok((Tree::String { value: after(s, 1).take(n as int) }, n + 2))
        }
    }
}

/// A comment word: a run of letters and digits, of which nothing is kept.
pub open spec fn comment(s: Seq<char>) -> Parsed {
    match identifier(s) {
        Ok((_, n)) => Ok((Tree::Identifier { value: Seq::empty() }, n)),
        Err(failure) => Err(failure),
    }
}

impl Level {
    /// The operator of this level that `s` begins with, if any.
    pub open spec fn operator_at(self, s: Seq<char>) -> Option<Token> {
        match self {
            Level::Additive => if starts_with(s, Token::Plus.text()) {
                Some(Token::Plus)
            } else if starts_with(s, Token::Minus.text()) {
                Some(Token::Minus)
            } else {
                None
            },
            Level::Multiplicative => if starts_with(s, Token::Star.text()) {
                Some(Token::Star)
            } else if starts_with(s, Token::Slash.text()) {
                Some(Token::Slash)
            } else {
                None
            },
            Level::Power => if starts_with(s, Token::Caret.text()) {
                Some(Token::Caret)
            } else {
                None
            },
        }
    }

    /// Where the rules of this level stand in the order in which rules call
    /// one another on the same text: tighter levels stand lower.
    pub open spec fn rank(self) -> nat {
        match self {
            Level::Additive => 30,
            Level::Multiplicative => 20,
            Level::Power => 10,
        }
    }
}

/// An operator node without its left operand, completed with `head` as its
/// first child.
pub open spec fn fold(head: Tree, partial: Tree) -> Tree {
    match partial {
        Tree::MathExpression { name, children } => Tree::MathExpression {
            name,
            children: seq![head] + children,
        },
        _ => head,
    }
}

/// An expression: the first that matches of a function call, a boolean, a
/// string literal, an arithmetic expression, a number and an identifier,
/// wrapped in an `Expression` node.
pub open spec fn expression(s: Seq<char>) -> Parsed
    decreases s.len(), 37nat,
{
    match either(
        either(
            either(either(either(function_call(s), boolean(s)), string(s)), math_expression(s)),
            number(s),
        ),
        identifier(s),
    ) {
        Ok((inner, n)) => Ok((Tree::Expression { children: seq![inner] }, n)),
        Err(failure) => Err(failure),
    }
}

/// A function call: an identifier and, directly behind it, its arguments.
pub open spec fn function_call(s: Seq<char>) -> Parsed
    decreases s.len(), 3nat,
{
    let k = run_len(s, CharClass::Alphanumeric);
    if k == 0 {
        Err(miss(s, Expected::Alphanumeric))
    } else {
        match moved(arguments(after(s, k)), k) {
            Ok((list, n)) => Ok(
                (Tree::FunctionCall { name: s.take(k as int), children: seq![list] }, n),
            ),
            Err(failure) => Err(failure),
        }
    }
}

/// Arguments: `(`, expressions separated by `,` (none is fine), `)`.
pub open spec fn arguments(s: Seq<char>) -> Parsed
    decreases s.len(), 2nat,
{
    if !token_at(s, 0, Token::OpenParen) {
        Err(lacks(s, 0, Token::OpenParen))
    } else {
        let (items, k) = expression_list(after(s, 1));
        if token_at(s, 1 + k, Token::CloseParen) {
            Ok((Tree::FunctionArguments { children: items }, k + 2))
        } else {
            Err(Failure::UnbalancedDelimiter { kind: Delimiter::Paren, position: 1 + k })
        }
    }
}

/// Expressions separated by commas, as many as there are. A comma that no
/// expression follows is not part of the list.
pub open spec fn expression_list(s: Seq<char>) -> Repeated
    decreases s.len(), 39nat,
{
    match expression(s) {
        Err(_) => (Seq::empty(), 0),
        Ok((first, k)) => {
            let (more, m) = more_expressions(after(s, k));
            (seq![first] + more, k + m)
        },
    }
}

/// The rest of a list of expressions: each a comma and an expression.
pub open spec fn more_expressions(s: Seq<char>) -> Repeated
    decreases s.len(), 38nat,
{
    if !token_at(s, 0, Token::Comma) {
        (Seq::empty(), 0)
    } else {
        match expression(after(s, 1)) {
            Err(_) => (Seq::empty(), 0),
            Ok((next, k)) => {
                let (more, m) = more_expressions(after(s, 1 + k));
                (seq![next] + more, 1 + k + m)
            },
        }
    }
}

/// An arithmetic expression: the loosest level of operators.
pub open spec fn math_expression(s: Seq<char>) -> Parsed
    decreases s.len(), 36nat,
{
    climb(Level::Additive, s)
}

/// One level of operators: an operand of the next tighter level, then every
/// continuation of this level that follows, folded in from the left.
pub open spec fn climb(level: Level, s: Seq<char>) -> Parsed
    decreases s.len(), level.rank() + 4,
{
    match operand(level, s) {
        Err(failure) => Err(failure),
        Ok((head, k)) => {
            let (tree, m) = continued(level, after(s, k), head);
            Ok((tree, k + m))
        },
    }
}

/// The continuations of `level` at the start of `s`, folded onto `head`
/// one after the other: what has been built so far becomes the left operand
/// of the next operator.
pub open spec fn continued(level: Level, s: Seq<char>, head: Tree) -> (Tree, nat)
    decreases s.len(), level.rank() + 3,
{
    match infix(level, s) {
        Err(_) => (head, 0),
        Ok((partial, k)) => if advances(s, k) {
            let (tree, m) = continued(level, after(s, k), fold(head, partial));
            (tree, k + m)
        } else {
            (head, 0)
        },
    }
}

/// One continuation of `level`: spaces, an operator of the level, spaces,
/// and an operand of the next tighter level. The result is the operator's
/// node with that operand as its only child.
pub open spec fn infix(level: Level, s: Seq<char>) -> Parsed
    decreases s.len(), level.rank() + 2,
{
    let a = past_spaces(s, 0);
    match level.operator_at(after(s, a)) {
        None => Err(miss(after(s, a), Expected::Operator).shifted(a)),
        Some(operator) => {
            let b = past_spaces(s, a + 1);
            match moved(operand(level, after(s, b)), b) {
                Err(failure) => Err(failure),
                Ok((right, n)) => Ok(
                    (Tree::MathExpression { name: operator.text(), children: seq![right] }, n),
                ),
            }
        },
    }
}

/// What the operators of `level` take as operands: the next tighter level,
/// and below the tightest an atom.
pub open spec fn operand(level: Level, s: Seq<char>) -> Parsed
    decreases s.len(), level.rank() + 1,
{
    match level {
        Level::Additive => climb(Level::Multiplicative, s),
        Level::Multiplicative => climb(Level::Power, s),
        Level::Power => atom(s),
    }
}

/// An atom: the first that matches of a parenthesised expression, a number,
/// an identifier and a function call.
pub open spec fn atom(s: Seq<char>) -> Parsed
    decreases s.len(), 4nat,
{
    either(
        either(either(parenthetical_expression(s), number(s)), identifier(s)),
        function_call(s),
    )
}

/// An arithmetic expression between `(` and `)`. The brackets leave no
/// node: the result is the tree of what they enclose.
pub open spec fn parenthetical_expression(s: Seq<char>) -> Parsed
    decreases s.len(), 3nat,
{
    if !token_at(s, 0, Token::OpenParen) {
        Err(lacks(s, 0, Token::OpenParen))
    } else {
        match moved(math_expression(after(s, 1)), 1) {
            Err(failure) => Err(failure),
            Ok((inner, n)) => if token_at(s, n, Token::CloseParen) {
                Ok((inner, n + 1))
            } else {
                Err(Failure::UnbalancedDelimiter { kind: Delimiter::Paren, position: n })
            },
        }
    }
}

/// A variable definition: `let` and one space, an identifier, `=` with
/// spaces around it as one likes, an expression.
#[verifier::opaque]
pub open spec fn variable_define(s: Seq<char>) -> Parsed {
    if !token_at(s, 0, Token::Let) {
        Err(lacks(s, 0, Token::Let))
    } else {
        match moved(identifier(after(s, 4)), 4) {
            Err(failure) => Err(failure),
            Ok((name, p)) => {
                let q = past_spaces(s, p);
                if !token_at(s, q, Token::Assign) {
                    Err(lacks(s, q, Token::Assign))
                } else {
                    let r = past_spaces(s, q + 1);
                    match moved(expression(after(s, r)), r) {
                        Err(failure) => Err(failure),
                        Ok((value, n)) => Ok(
                            (Tree::VariableDefine { children: seq![name, value] }, n),
                        ),
                    }
                }
            },
        }
    }
}

/// A return: `return`, spaces as one likes, an expression. The `;` that
/// ends it belongs to the statement.
#[verifier::opaque]
pub open spec fn function_return(s: Seq<char>) -> Parsed {
    if !token_at(s, 0, Token::Return) {
        Err(lacks(s, 0, Token::Return))
    } else {
        let p = past_spaces(s, 6);
        match moved(expression(after(s, p)), p) {
            Err(failure) => Err(failure),
            Ok((value, n)) => Ok((Tree::FunctionReturn { children: seq![value] }, n)),
        }
    }
}

/// A statement: a return or a variable definition, and `;`.
#[verifier::opaque]
pub open spec fn statement(s: Seq<char>) -> Parsed {
    match either(function_return(s), variable_define(s)) {
        Err(failure) => Err(failure),
        Ok((inner, n)) => if token_at(s, n, Token::Semicolon) {
            Ok((Tree::Statement { children: seq![inner] }, n + 1))
        } else {
            Err(lacks(s, n, Token::Semicolon))
        },
    }
}

/// What a function body is made of: a statement or, failing that, an
/// expression.
#[verifier::opaque]
pub open spec fn body_item(s: Seq<char>) -> Parsed {
    either(statement(s), expression(s))
}

/// Body items one directly after the other, as many as there are.
pub open spec fn body_items(s: Seq<char>) -> Repeated
    decreases s.len(),
{
    match body_item(s) {
        Err(_) => (Seq::empty(), 0),
        Ok((first, k)) => if advances(s, k) {
            let (more, m) = body_items(after(s, k));
            (seq![first] + more, k + m)
        } else {
            (Seq::empty(), 0)
        },
    }
}

/// The head of a function definition: `fn`, the function's name, and its
/// arguments inside a further pair of parentheses. The result is the name,
/// the arguments and the number of characters consumed.
#[verifier::opaque]
pub open spec fn function_head(s: Seq<char>) -> Result<(Tree, Tree, nat), Failure> {
    if !token_at(s, 0, Token::Fn) {
        Err(lacks(s, 0, Token::Fn))
    } else {
        let p = past_spaces(s, 2);
        match moved(identifier(after(s, p)), p) {
            Err(failure) => Err(failure),
            Ok((name, q)) => {
                let r = past_spaces(s, q);
                if !token_at(s, r, Token::OpenParen) {
                    Err(lacks(s, r, Token::OpenParen))
                } else {
                    match moved(arguments(after(s, r + 1)), r + 1) {
                        Err(failure) => Err(failure),
                        Ok((list, n)) => if token_at(s, n, Token::CloseParen) {
                            Ok((name, list, n + 1))
                        } else {
                            Err(
                                Failure::UnbalancedDelimiter {
                                    kind: Delimiter::Paren,
                                    position: n,
                                },
                            )
                        },
                    }
                }
            },
        }
    }
}

/// The body of a function definition: `{`, one body item or more, `}`, with
/// spaces as one likes inside the braces at either end, and after the body.
#[verifier::opaque]
pub open spec fn function_body(s: Seq<char>) -> Result<Repeated, Failure> {
    if !token_at(s, 0, Token::OpenBrace) {
        Err(lacks(s, 0, Token::OpenBrace))
    } else {
        let p = past_spaces(s, 1);
        match moved(body_item(after(s, p)), p) {
            Err(failure) => Err(failure),
            Ok((first, q)) => {
                let (more, m) = body_items(after(s, q));
                let r = past_spaces(s, q + m);
                if token_at(s, r, Token::CloseBrace) {
                    Ok((seq![first] + more, past_spaces(s, r + 1)))
                } else {
                    Err(Failure::UnbalancedDelimiter { kind: Delimiter::Brace, position: r })
                }
            },
        }
    }
}

/// A function definition: a head, spaces as one likes, a body. Its children
/// are the name, the arguments, and the items of the body.
#[verifier::opaque]
pub open spec fn function_definition(s: Seq<char>) -> Parsed {
    match function_head(s) {
        Err(failure) => Err(failure),
        Ok((name, list, p)) => {
            let q = past_spaces(s, p);
            match function_body(after(s, q)) {
                Err(failure) => Err(failure.shifted(q)),
                Ok((items, n)) => Ok(
                    (Tree::FunctionDefine { children: seq![name, list] + items }, q + n),
                ),
            }
        },
    }
}

/// What a program is made of: a function definition or, failing that, a
/// statement or, failing that, an expression.
#[verifier::opaque]
pub open spec fn item(s: Seq<char>) -> Parsed {
    either(either(function_definition(s), statement(s)), expression(s))
}

/// Items one directly after the other, as many as there are.
pub open spec fn items(s: Seq<char>) -> Repeated
    decreases s.len(),
{
    match item(s) {
        Err(_) => (Seq::empty(), 0),
        Ok((first, k)) => if advances(s, k) {
            let (more, m) = items(after(s, k));
            (seq![first] + more, k + m)
        } else {
            (Seq::empty(), 0)
        },
    }
}

/// A program: one item or more. It ends where no further item matches, be
/// that the end of the text or not.
#[verifier::opaque]
pub open spec fn program(s: Seq<char>) -> Parsed {
    match item(s) {
        Err(failure) => Err(failure),
        Ok((first, k)) => {
            let (more, m) = items(after(s, k));
            Ok((Tree::Program { children: seq![first] + more }, k + m))
        },
    }
}

/// A whole text: a program that leaves nothing but white space.
pub open spec fn parse(s: Seq<char>) -> Result<Tree, Failure> {
    match program(s) {
        Err(failure) => Err(failure),
        Ok((root, n)) => {
            let end = n + run_len(after(s, n), CharClass::Whitespace);
            if end >= s.len() {
                Ok(root)
            } else {
                Err(Failure::TrailingInput { position: end })
            }
        },
    }
}

} // verus!
