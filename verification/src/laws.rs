//! What holds of the grammar on every text.
//!
//! The first part shows, rule by rule, that a match always steps forward
//! inside the text and yields a well-formed tree, and that a failure always
//! lies inside the text. The second part states what follows for the
//! parsers: the same text gives the same result, a whole text is accepted
//! exactly when a program covers it, and no number wraps around.

use crate::ast::{Node, Tree};
use crate::chars::{
    after, decimal_value, lemma_run_is_maximal, lemma_run_len_bound, run_len, CharClass,
};
use crate::error::{Failure, ParseError, Token};
use crate::grammar;
use crate::grammar::{advances, moved, Level, Parsed, Repeated};
use crate::parser::{agrees, answers};
use vstd::prelude::*;

verus! {

/// Whether a failure is one that a rule may report on `s`: it lies inside
/// `s`, and it is not the one kept for text that follows a whole program.
pub open spec fn sound_failure(s: Seq<char>, failure: Failure) -> bool {
    failure.within(s.len()) && !(failure is TrailingInput)
}

/// Whether a result is one that a rule may have on `s`: a match steps
/// forward inside `s` and its tree is well formed; a failure is sound.
pub open spec fn sound(s: Seq<char>, r: Parsed) -> bool {
    match r {
        Ok((tree, n)) => advances(s, n) && tree.well_formed(),
        Err(failure) => sound_failure(s, failure),
    }
}

/// Whether a repetition's result is one that it may have on `s`: it stays
/// inside `s`, and its trees are well formed.
pub open spec fn sound_repetition(s: Seq<char>, r: Repeated) -> bool {
    r.1 <= s.len() && forall|i: int| 0 <= i < r.0.len() ==> (#[trigger] r.0[i]).well_formed()
}

/// A sound result stays sound when it is moved into a longer text.
proof fn lemma_moved(s: Seq<char>, by: nat, r: Parsed)
    requires
        by <= s.len(),
        sound(after(s, by), r),
    ensures
        sound(s, moved(r, by)),
{
}

/// A number is sound, and its tree is a `Number`.
pub proof fn lemma_number_is_sound(s: Seq<char>)
    ensures
        sound(s, grammar::number(s)),
        grammar::number(s) matches Ok((tree, _)) ==> tree is Number,
{
    lemma_run_len_bound(s, CharClass::Digit);
}

/// An identifier is sound, and its tree is an `Identifier`.
pub proof fn lemma_identifier_is_sound(s: Seq<char>)
    ensures
        sound(s, grammar::identifier(s)),
        grammar::identifier(s) matches Ok((tree, _)) ==> tree is Identifier,
{
    lemma_run_len_bound(s, CharClass::Alphanumeric);
}

/// A boolean is sound, and its tree is a `Bool`.
pub proof fn lemma_boolean_is_sound(s: Seq<char>)
    ensures
        sound(s, grammar::boolean(s)),
        grammar::boolean(s) matches Ok((tree, _)) ==> tree is Bool,
{
}

/// A string literal is sound, and its tree is a `String`.
pub proof fn lemma_string_is_sound(s: Seq<char>)
    ensures
        sound(s, grammar::string(s)),
        grammar::string(s) matches Ok((tree, _)) ==> tree is String,
{
    lemma_run_len_bound(after(s, 1), CharClass::Text);
}

/// An expression is sound, and its tree is an `Expression`.
pub proof fn lemma_expression_is_sound(s: Seq<char>)
    ensures
        sound(s, grammar::expression(s)),
        grammar::expression(s) matches Ok((tree, _)) ==> tree is Expression,
    decreases s.len(), 37nat,
{
    lemma_function_call_is_sound(s);
    lemma_boolean_is_sound(s);
    lemma_string_is_sound(s);
    lemma_math_expression_is_sound(s);
    lemma_number_is_sound(s);
    lemma_identifier_is_sound(s);
}

/// A function call is sound, and its tree is a `FunctionCall`.
pub proof fn lemma_function_call_is_sound(s: Seq<char>)
    ensures
        sound(s, grammar::function_call(s)),
        grammar::function_call(s) matches Ok((tree, _)) ==> tree is FunctionCall,
    decreases s.len(), 3nat,
{
    let k = run_len(s, CharClass::Alphanumeric);
    lemma_run_len_bound(s, CharClass::Alphanumeric);
    if k > 0 {
        lemma_arguments_is_sound(after(s, k));
        lemma_moved(s, k, grammar::arguments(after(s, k)));
    }
}

/// Arguments are sound, and their tree is a `FunctionArguments`.
pub proof fn lemma_arguments_is_sound(s: Seq<char>)
    ensures
        sound(s, grammar::arguments(s)),
        grammar::arguments(s) matches Ok((tree, _)) ==> tree is FunctionArguments,
    decreases s.len(), 2nat,
{
    if grammar::token_at(s, 0, Token::OpenParen) {
        lemma_expression_list_are_sound(after(s, 1));
    }
}

/// A list of expressions stays inside the text, and holds well-formed
/// `Expression` trees only.
pub proof fn lemma_expression_list_are_sound(s: Seq<char>)
    ensures
        sound_repetition(s, grammar::expression_list(s)),
        forall|i: int|
            0 <= i < grammar::expression_list(s).0.len() ==> (
            #[trigger] grammar::expression_list(s).0[i]) is Expression,
    decreases s.len(), 39nat,
{
    lemma_expression_is_sound(s);
    if let Ok((first, k)) = grammar::expression(s) {
        lemma_more_expressions_are_sound(after(s, k));
    }
}

/// The rest of a list of expressions stays inside the text, and holds
/// well-formed `Expression` trees only.
pub proof fn lemma_more_expressions_are_sound(s: Seq<char>)
    ensures
        sound_repetition(s, grammar::more_expressions(s)),
        forall|i: int|
            0 <= i < grammar::more_expressions(s).0.len() ==> (
            #[trigger] grammar::more_expressions(s).0[i]) is Expression,
    decreases s.len(), 38nat,
{
    if grammar::token_at(s, 0, Token::Comma) {
        lemma_expression_is_sound(after(s, 1));
        if let Ok((next, k)) = grammar::expression(after(s, 1)) {
            lemma_more_expressions_are_sound(after(s, 1 + k));
        }
    }
}

/// An arithmetic expression is sound, and its tree is an operand.
pub proof fn lemma_math_expression_is_sound(s: Seq<char>)
    ensures
        sound(s, grammar::math_expression(s)),
        grammar::math_expression(s) matches Ok((tree, _)) ==> tree.is_operand(),
    decreases s.len(), 36nat,
{
    lemma_climb_is_sound(Level::Additive, s);
}

/// A level of operators is sound, and its tree is an operand.
pub proof fn lemma_climb_is_sound(level: Level, s: Seq<char>)
    ensures
        sound(s, grammar::climb(level, s)),
        grammar::climb(level, s) matches Ok((tree, _)) ==> tree.is_operand(),
    decreases s.len(), level.rank() + 4,
{
    lemma_operand_is_sound(level, s);
    if let Ok((head, k)) = grammar::operand(level, s) {
        lemma_continued_is_sound(level, after(s, k), head);
    }
}

/// Folding continuations onto a well-formed operand stays inside the text
/// and gives a well-formed operand.
pub proof fn lemma_continued_is_sound(level: Level, s: Seq<char>, head: Tree)
    requires
        head.well_formed(),
        head.is_operand(),
    ensures
        grammar::continued(level, s, head).1 <= s.len(),
        grammar::continued(level, s, head).0.well_formed(),
        grammar::continued(level, s, head).0.is_operand(),
    decreases s.len(), level.rank() + 3,
{
    lemma_infix_is_sound(level, s);
    if let Ok((partial, k)) = grammar::infix(level, s) {
        if advances(s, k) {
            lemma_continued_is_sound(level, after(s, k), grammar::fold(head, partial));
        }
    }
}

/// A continuation steps forward inside the text, and its tree is an
/// operator that awaits its left operand; or its failure is sound.
pub proof fn lemma_infix_is_sound(level: Level, s: Seq<char>)
    ensures
        match grammar::infix(level, s) {
            Ok((tree, n)) => advances(s, n) && tree.awaits_left_operand(),
            Err(failure) => sound_failure(s, failure),
        },
    decreases s.len(), level.rank() + 2,
{
    let a = grammar::past_spaces(s, 0);
    lemma_run_len_bound(after(s, 0), CharClass::Space);
    if let Some(operator) = level.operator_at(after(s, a)) {
        let b = grammar::past_spaces(s, a + 1);
        lemma_run_len_bound(after(s, a + 1), CharClass::Space);
        lemma_operand_is_sound(level, after(s, b));
        lemma_moved(s, b, grammar::operand(level, after(s, b)));
    }
}

/// An operand of a level is sound, and its tree is an operand.
pub proof fn lemma_operand_is_sound(level: Level, s: Seq<char>)
    ensures
        sound(s, grammar::operand(level, s)),
        grammar::operand(level, s) matches Ok((tree, _)) ==> tree.is_operand(),
    decreases s.len(), level.rank() + 1,
{
    match level {
        Level::Additive => lemma_climb_is_sound(Level::Multiplicative, s),
        Level::Multiplicative => lemma_climb_is_sound(Level::Power, s),
        Level::Power => lemma_atom_is_sound(s),
    }
}

/// An atom is sound, and its tree is an operand.
pub proof fn lemma_atom_is_sound(s: Seq<char>)
    ensures
        sound(s, grammar::atom(s)),
        grammar::atom(s) matches Ok((tree, _)) ==> tree.is_operand(),
    decreases s.len(), 4nat,
{
    lemma_parenthetical_expression_is_sound(s);
    lemma_number_is_sound(s);
    lemma_identifier_is_sound(s);
    lemma_function_call_is_sound(s);
}

/// A parenthesised expression is sound, and its tree is an operand.
pub proof fn lemma_parenthetical_expression_is_sound(s: Seq<char>)
    ensures
        sound(s, grammar::parenthetical_expression(s)),
        grammar::parenthetical_expression(s) matches Ok((tree, _)) ==> tree.is_operand(),
    decreases s.len(), 3nat,
{
    if grammar::token_at(s, 0, Token::OpenParen) {
        lemma_math_expression_is_sound(after(s, 1));
        lemma_moved(s, 1, grammar::math_expression(after(s, 1)));
    }
}

/// A variable definition is sound, and its tree is a `VariableDefine`.
pub proof fn lemma_variable_define_is_sound(s: Seq<char>)
    ensures
        sound(s, grammar::variable_define(s)),
        grammar::variable_define(s) matches Ok((tree, _)) ==> tree is VariableDefine,
{
    reveal(grammar::variable_define);
    if grammar::token_at(s, 0, Token::Let) {
        lemma_identifier_is_sound(after(s, 4));
        lemma_moved(s, 4, grammar::identifier(after(s, 4)));
        if let Ok((name, p)) = moved(grammar::identifier(after(s, 4)), 4) {
            let q = grammar::past_spaces(s, p);
            lemma_run_len_bound(after(s, p), CharClass::Space);
            if grammar::token_at(s, q, Token::Assign) {
                let r = grammar::past_spaces(s, q + 1);
                lemma_run_len_bound(after(s, q + 1), CharClass::Space);
                lemma_expression_is_sound(after(s, r));
                lemma_moved(s, r, grammar::expression(after(s, r)));
            }
        }
    }
}

/// A return is sound, and its tree is a `FunctionReturn`.
pub proof fn lemma_function_return_is_sound(s: Seq<char>)
    ensures
        sound(s, grammar::function_return(s)),
        grammar::function_return(s) matches Ok((tree, _)) ==> tree is FunctionReturn,
{
    reveal(grammar::function_return);
    if grammar::token_at(s, 0, Token::Return) {
        let p = grammar::past_spaces(s, 6);
        lemma_run_len_bound(after(s, 6), CharClass::Space);
        lemma_expression_is_sound(after(s, p));
        lemma_moved(s, p, grammar::expression(after(s, p)));
    }
}

/// A statement is sound, and its tree is a `Statement`.
pub proof fn lemma_statement_is_sound(s: Seq<char>)
    ensures
        sound(s, grammar::statement(s)),
        grammar::statement(s) matches Ok((tree, _)) ==> tree is Statement,
{
    reveal(grammar::statement);
    lemma_function_return_is_sound(s);
    lemma_variable_define_is_sound(s);
}

/// A body item is sound, and its tree is a statement or an expression.
pub proof fn lemma_body_item_is_sound(s: Seq<char>)
    ensures
        sound(s, grammar::body_item(s)),
        grammar::body_item(s) matches Ok((tree, _)) ==> tree.is_body_item(),
{
    reveal(grammar::body_item);
    lemma_statement_is_sound(s);
    lemma_expression_is_sound(s);
}

/// Body items in a row stay inside the text, and are well-formed
/// statements and expressions.
pub proof fn lemma_body_items_are_sound(s: Seq<char>)
    ensures
        sound_repetition(s, grammar::body_items(s)),
        forall|i: int|
            0 <= i < grammar::body_items(s).0.len() ==> (#[trigger] grammar::body_items(
                s,
            ).0[i]).is_body_item(),
    decreases s.len(),
{
    lemma_body_item_is_sound(s);
    if let Ok((first, k)) = grammar::body_item(s) {
        if advances(s, k) {
            lemma_body_items_are_sound(after(s, k));
        }
    }
}

/// The head of a function definition steps forward inside the text and
/// yields an `Identifier` and well-formed `FunctionArguments`; or its
/// failure is sound.
pub proof fn lemma_function_head_is_sound(s: Seq<char>)
    ensures
        match grammar::function_head(s) {
            Ok((name, list, n)) => advances(s, n) && name is Identifier
                && list is FunctionArguments && list.well_formed(),
            Err(failure) => sound_failure(s, failure),
        },
{
    reveal(grammar::function_head);
    if grammar::token_at(s, 0, Token::Fn) {
        let p = grammar::past_spaces(s, 2);
        lemma_run_len_bound(after(s, 2), CharClass::Space);
        lemma_identifier_is_sound(after(s, p));
        lemma_moved(s, p, grammar::identifier(after(s, p)));
        if let Ok((name, q)) = moved(grammar::identifier(after(s, p)), p) {
            let r = grammar::past_spaces(s, q);
            lemma_run_len_bound(after(s, q), CharClass::Space);
            if grammar::token_at(s, r, Token::OpenParen) {
                lemma_arguments_is_sound(after(s, r + 1));
                lemma_moved(s, r + 1, grammar::arguments(after(s, r + 1)));
            }
        }
    }
}

/// The body of a function definition steps forward inside the text and
/// yields at least one item, all of them well-formed statements and
/// expressions; or its failure is sound.
pub proof fn lemma_function_body_is_sound(s: Seq<char>)
    ensures
        match grammar::function_body(s) {
            Ok((items, n)) => advances(s, n) && items.len() >= 1 && forall|i: int|
                0 <= i < items.len() ==> (#[trigger] items[i]).is_body_item()
                    && items[i].well_formed(),
            Err(failure) => sound_failure(s, failure),
        },
{
    reveal(grammar::function_body);
    if grammar::token_at(s, 0, Token::OpenBrace) {
        let p = grammar::past_spaces(s, 1);
        lemma_run_len_bound(after(s, 1), CharClass::Space);
        lemma_body_item_is_sound(after(s, p));
        lemma_moved(s, p, grammar::body_item(after(s, p)));
        if let Ok((first, q)) = moved(grammar::body_item(after(s, p)), p) {
            lemma_body_items_are_sound(after(s, q));
            let (more, m) = grammar::body_items(after(s, q));
            let r = grammar::past_spaces(s, q + m);
            lemma_run_len_bound(after(s, q + m), CharClass::Space);
            if grammar::token_at(s, r, Token::CloseBrace) {
                lemma_run_len_bound(after(s, r + 1), CharClass::Space);
            }
        }
    }
}

/// A function definition is sound, and its tree is a `FunctionDefine`.
pub proof fn lemma_function_definition_is_sound(s: Seq<char>)
    ensures
        sound(s, grammar::function_definition(s)),
        grammar::function_definition(s) matches Ok((tree, _)) ==> tree is FunctionDefine,
{
    reveal(grammar::function_definition);
    lemma_function_head_is_sound(s);
    if let Ok((name, list, p)) = grammar::function_head(s) {
        let q = grammar::past_spaces(s, p);
        lemma_run_len_bound(after(s, p), CharClass::Space);
        lemma_function_body_is_sound(after(s, q));
        if let Ok((items, n)) = grammar::function_body(after(s, q)) {
            let children = seq![name, list] + items;
            assert forall|i: int| 0 <= i < children.len() implies (i >= 2 ==> (
            #[trigger] children[i]).is_body_item()) && children[i].well_formed() by {
                if i >= 2 {
                    assert(children[i] == items[i - 2]);
                }
            }
        }
    }
}

/// A program item is sound, and its tree is a function definition, a
/// statement or an expression.
pub proof fn lemma_item_is_sound(s: Seq<char>)
    ensures
        sound(s, grammar::item(s)),
        grammar::item(s) matches Ok((tree, _)) ==> tree.is_item(),
{
    reveal(grammar::item);
    lemma_function_definition_is_sound(s);
    lemma_statement_is_sound(s);
    lemma_expression_is_sound(s);
}

/// Program items in a row stay inside the text, and are well formed.
pub proof fn lemma_items_are_sound(s: Seq<char>)
    ensures
        sound_repetition(s, grammar::items(s)),
        forall|i: int|
            0 <= i < grammar::items(s).0.len() ==> (#[trigger] grammar::items(s).0[i]).is_item(),
    decreases s.len(),
{
    lemma_item_is_sound(s);
    if let Ok((first, k)) = grammar::item(s) {
        if advances(s, k) {
            lemma_items_are_sound(after(s, k));
        }
    }
}

/// A program is sound, and its tree is a `Program`.
pub proof fn lemma_program_is_sound(s: Seq<char>)
    ensures
        sound(s, grammar::program(s)),
        grammar::program(s) matches Ok((tree, _)) ==> tree is Program,
{
    reveal(grammar::program);
    lemma_item_is_sound(s);
    if let Ok((first, k)) = grammar::item(s) {
        lemma_items_are_sound(after(s, k));
    }
}

/// Whether every character of `s` is white space.
pub open spec fn blank(s: Seq<char>) -> bool {
    forall|i: int| 0 <= i < s.len() ==> CharClass::Whitespace.admits(#[trigger] s[i])
}

/// Full consumption. A whole text is accepted exactly when a program
/// matches at its start and nothing but white space follows the program;
/// the tree is then the program's, and it is well formed. Where anything
/// else follows, the text is rejected with `TrailingInput` at the first
/// character after the program that is no white space. Where no program
/// matches, the text is rejected with the program's failure, which is never
/// `TrailingInput`.
pub proof fn lemma_parse_consumes_the_whole_text(s: Seq<char>)
    ensures
        match grammar::program(s) {
            Ok((root, n)) => n <= s.len() && root.well_formed() && if blank(after(s, n)) {
                grammar::parse(s) == Ok::<Tree, Failure>(root)
            } else {
                grammar::parse(s) matches Err(Failure::TrailingInput { position }) && n <= position
                    < s.len() && !CharClass::Whitespace.admits(s[position as int]) && forall|
                    i: int,
                | n <= i < position ==> CharClass::Whitespace.admits(#[trigger] s[i])
            },
            Err(failure) => grammar::parse(s) == Err::<Tree, Failure>(failure) && !(
            failure is TrailingInput),
        },
{
    lemma_program_is_sound(s);
    if let Ok((root, n)) = grammar::program(s) {
        let rest = after(s, n);
        let w = run_len(rest, CharClass::Whitespace);
        lemma_run_len_bound(rest, CharClass::Whitespace);
        lemma_run_is_maximal(rest, CharClass::Whitespace);
        if blank(rest) {
            if w < rest.len() {
                assert(CharClass::Whitespace.admits(rest[w as int]));
            }
        } else {
            if w == rest.len() {
                assert forall|i: int| 0 <= i < rest.len() implies CharClass::Whitespace.admits(
                    #[trigger] rest[i],
                ) by {}
            }
            assert(rest[w as int] == s[(n + w) as int]);
            assert forall|i: int| n <= i < n + w implies CharClass::Whitespace.admits(
                #[trigger] s[i],
            ) by {
                assert(s[i] == rest[i - n]);
            }
        }
    }
}

/// Soundness of whole texts. An accepted text yields a well-formed
/// `Program`; a rejected one a failure that lies inside the text.
pub proof fn lemma_parse_is_sound(s: Seq<char>)
    ensures
        match grammar::parse(s) {
            Ok(root) => root is Program && root.well_formed(),
            Err(failure) => failure.within(s.len()),
        },
{
    lemma_program_is_sound(s);
    lemma_parse_consumes_the_whole_text(s);
}

/// Determinism. Two results of a rule's parser on texts that read the same
/// are the same: the same tree and the same remaining text, or the same
/// failure.
pub proof fn lemma_same_text_same_result(
    first_text: &str,
    second_text: &str,
    model: Parsed,
    first: Result<(&str, Node), ParseError>,
    second: Result<(&str, Node), ParseError>,
)
    requires
        first_text@ == second_text@,
        agrees(first_text, first, model),
        agrees(second_text, second, model),
    ensures
        match (first, second) {
            (Ok((first_rest, first_node)), Ok((second_rest, second_node))) => first_node@
                == second_node@ && first_rest@ == second_rest@,
            (Err(first_failure), Err(second_failure)) => first_failure@ == second_failure@,
            _ => false,
        },
{
}

/// Determinism of whole texts. Two results of parsing the same whole text
/// are the same: the same tree or the same failure.
pub proof fn lemma_same_text_same_tree(
    model: Result<Tree, Failure>,
    first: Result<Node, ParseError>,
    second: Result<Node, ParseError>,
)
    requires
        answers(first, model),
        answers(second, model),
    ensures
        match (first, second) {
            (Ok(first_root), Ok(second_root)) => first_root@ == second_root@,
            (Err(first_failure), Err(second_failure)) => first_failure@ == second_failure@,
            _ => false,
        },
{
}

/// No wrap-around. A text that begins with digits is a number exactly when
/// the value of its leading digits is at most `i32::MAX`, and the number is
/// then that value; otherwise it is rejected with `NumberOverflow`, which
/// carries those digits.
pub proof fn lemma_number_never_wraps(s: Seq<char>)
    requires
        run_len(s, CharClass::Digit) > 0,
    ensures
        ({
            let digits = s.take(run_len(s, CharClass::Digit) as int);
            if decimal_value(digits) <= i32::MAX {
                grammar::number(s) matches Ok((Tree::Number { value }, n)) && value
                    == decimal_value(digits) && n == digits.len()
            } else {
                grammar::number(s) == Err::<(Tree, nat), Failure>(
                    Failure::NumberOverflow { digits, position: 0 },
                )
            }
        }),
{
    lemma_run_len_bound(s, CharClass::Digit);
}

} // verus!
