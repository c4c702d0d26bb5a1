use minilang::{
    arguments, boolean, comment, expression, function_call, function_definition, function_return,
    identifier, l1_infix, l2_infix, l3_infix, l4, math_expression, number, parse,
    parenthetical_expression, program, statement, string, variable_define, Delimiter, Expected,
    ParseError, Token,
};

fn unexpected(expected: Expected, position: usize) -> ParseError {
    ParseError::UnexpectedToken { expected, position }
}

fn literal(token: Token, position: usize) -> ParseError {
    ParseError::UnexpectedToken { expected: Expected::Literal(token), position }
}

fn unbalanced(kind: Delimiter, position: usize) -> ParseError {
    ParseError::UnbalancedDelimiter { kind, position }
}

#[test]
fn number_on_no_digit() {
    assert_eq!(number("abc"), Err(unexpected(Expected::Digit, 0)));
    assert_eq!(number(" 1"), Err(unexpected(Expected::Digit, 0)));
    assert_eq!(number("-1"), Err(unexpected(Expected::Digit, 0)));
    assert_eq!(number(""), Err(ParseError::UnexpectedEndOfInput));
}

#[test]
fn number_overflow_is_reported() {
    assert_eq!(
        number("2147483648"),
        Err(ParseError::NumberOverflow { digits: "2147483648".to_string(), position: 0 })
    );
    assert_eq!(
        number("99999999999 rest"),
        Err(ParseError::NumberOverflow { digits: "99999999999".to_string(), position: 0 })
    );
    assert_eq!(
        number("340282366920938463463374607431768211456"),
        Err(ParseError::NumberOverflow {
            digits: "340282366920938463463374607431768211456".to_string(),
            position: 0
        })
    );
}

#[test]
fn identifier_on_no_letter_or_digit() {
    assert_eq!(identifier("+a"), Err(unexpected(Expected::Alphanumeric, 0)));
    assert_eq!(identifier("\u{e9}"), Err(unexpected(Expected::Alphanumeric, 0)));
    assert_eq!(identifier(""), Err(ParseError::UnexpectedEndOfInput));
    assert_eq!(comment("!"), Err(unexpected(Expected::Alphanumeric, 0)));
}

#[test]
fn boolean_on_anything_else() {
    assert_eq!(boolean("tru"), Err(unexpected(Expected::Boolean, 0)));
    assert_eq!(boolean("True"), Err(unexpected(Expected::Boolean, 0)));
    assert_eq!(boolean(""), Err(ParseError::UnexpectedEndOfInput));
}

#[test]
fn unterminated_string() {
    assert_eq!(string("\"abc"), Err(ParseError::UnterminatedString { position: 4 }));
    assert_eq!(string("\""), Err(ParseError::UnterminatedString { position: 1 }));
}

#[test]
fn string_with_punctuation_is_rejected() {
    assert_eq!(string("\"a.b\""), Err(ParseError::UnterminatedString { position: 2 }));
    assert_eq!(string("\"a\\\"b\""), Err(ParseError::UnterminatedString { position: 2 }));
}

#[test]
fn string_without_content_or_quote() {
    assert_eq!(string("\"\""), Err(unexpected(Expected::Text, 1)));
    assert_eq!(string("abc"), Err(literal(Token::Quote, 0)));
    assert_eq!(string(""), Err(ParseError::UnexpectedEndOfInput));
}

#[test]
fn function_call_rejects_space_before_arguments() {
    assert_eq!(function_call("foo (1)"), Err(literal(Token::OpenParen, 3)));
    assert_eq!(function_call("foo"), Err(ParseError::UnexpectedEndOfInput));
    assert_eq!(function_call("(1)"), Err(unexpected(Expected::Alphanumeric, 0)));
}

#[test]
fn arguments_must_be_closed() {
    assert_eq!(arguments("(1,2"), Err(unbalanced(Delimiter::Paren, 4)));
    assert_eq!(arguments("(1, 2)"), Err(unbalanced(Delimiter::Paren, 2)));
    assert_eq!(arguments("(1,)"), Err(unbalanced(Delimiter::Paren, 2)));
    assert_eq!(arguments("("), Err(unbalanced(Delimiter::Paren, 1)));
    assert_eq!(arguments("1)"), Err(literal(Token::OpenParen, 0)));
    assert_eq!(function_call("f(g(1)"), Err(unbalanced(Delimiter::Paren, 6)));
}

#[test]
fn parenthesis_must_be_closed_by_its_partner() {
    assert_eq!(parenthetical_expression("(1+2"), Err(unbalanced(Delimiter::Paren, 4)));
    assert_eq!(parenthetical_expression("(1+2("), Err(unbalanced(Delimiter::Paren, 4)));
    assert_eq!(parenthetical_expression("1"), Err(literal(Token::OpenParen, 0)));
    assert_eq!(parenthetical_expression("(+)"), Err(unexpected(Expected::Alphanumeric, 1)));
}

#[test]
fn failure_of_the_alternative_that_got_furthest_is_reported() {
    assert_eq!(expression("\"abc"), Err(ParseError::UnterminatedString { position: 4 }));
    assert_eq!(math_expression("(1+2"), Err(unbalanced(Delimiter::Paren, 4)));
    assert_eq!(l4("((1)"), Err(unbalanced(Delimiter::Paren, 4)));
    assert_eq!(expression("?"), Err(unexpected(Expected::Alphanumeric, 0)));
    assert_eq!(expression(""), Err(ParseError::UnexpectedEndOfInput));
    assert_eq!(statement("return"), Err(ParseError::UnexpectedEndOfInput));
    assert_eq!(statement("x = 1;"), Err(literal(Token::Let, 0)));
}

#[test]
fn infix_needs_an_operator_of_its_level_and_an_operand() {
    assert_eq!(l1_infix("  *2"), Err(unexpected(Expected::Operator, 2)));
    assert_eq!(l2_infix("+2"), Err(unexpected(Expected::Operator, 0)));
    assert_eq!(l3_infix("   "), Err(ParseError::UnexpectedEndOfInput));
    assert_eq!(l1_infix(" + "), Err(ParseError::UnexpectedEndOfInput));
    assert_eq!(l1_infix(" + ;"), Err(unexpected(Expected::Alphanumeric, 3)));
}

#[test]
fn variable_definition_failures() {
    assert_eq!(variable_define("letx = 1"), Err(literal(Token::Let, 0)));
    assert_eq!(variable_define("let  x = 1"), Err(unexpected(Expected::Alphanumeric, 4)));
    assert_eq!(variable_define("let x 1"), Err(literal(Token::Assign, 6)));
    assert_eq!(variable_define("let x = ;"), Err(unexpected(Expected::Alphanumeric, 8)));
    assert_eq!(variable_define("let x ="), Err(ParseError::UnexpectedEndOfInput));
}

#[test]
fn statement_needs_its_terminator() {
    assert_eq!(statement("let x = 5"), Err(ParseError::UnexpectedEndOfInput));
    assert_eq!(statement("let x = 5 ;"), Err(literal(Token::Semicolon, 9)));
    assert_eq!(function_return("retur 1"), Err(literal(Token::Return, 0)));
}

#[test]
fn function_definition_failures() {
    assert_eq!(function_definition("let x = 1;"), Err(literal(Token::Fn, 0)));
    assert_eq!(function_definition("fn f(a) {1}"), Err(literal(Token::OpenParen, 5)));
    assert_eq!(function_definition("fn f((a) {1}"), Err(unbalanced(Delimiter::Paren, 8)));
    assert_eq!(function_definition("fn f(()) 1"), Err(literal(Token::OpenBrace, 9)));
    assert_eq!(function_definition("fn f(()) {}"), Err(unexpected(Expected::Alphanumeric, 10)));
    assert_eq!(function_definition("fn f(()) {1"), Err(unbalanced(Delimiter::Brace, 11)));
    assert_eq!(
        function_definition("fn f(()) {let a = 1; return a;}"),
        Err(unbalanced(Delimiter::Brace, 21))
    );
}

#[test]
fn program_needs_one_item() {
    assert_eq!(program(""), Err(ParseError::UnexpectedEndOfInput));
    assert_eq!(program(" 1"), Err(unexpected(Expected::Alphanumeric, 0)));
    assert_eq!(parse(""), Err(ParseError::UnexpectedEndOfInput));
}

#[test]
fn trailing_input_is_rejected() {
    assert_eq!(parse("let x = 5; y"), Err(ParseError::TrailingInput { position: 11 }));
    assert_eq!(parse("1+2\n\t)"), Err(ParseError::TrailingInput { position: 5 }));
    assert_eq!(parse("foo (1)"), Err(ParseError::TrailingInput { position: 4 }));
    assert_eq!(parse("x\u{e9}"), Err(ParseError::TrailingInput { position: 1 }));
}

#[test]
fn failures_choose_shift_and_copy() {
    let early = ParseError::UnexpectedToken { expected: Expected::Digit, position: 1 };
    let late = ParseError::UnterminatedString { position: 3 };
    assert_eq!(early.clone().furthest(late.clone()), late);
    assert_eq!(late.clone().furthest(early.clone()), late);
    assert_eq!(
        early.clone().furthest(ParseError::UnexpectedToken {
            expected: Expected::Boolean,
            position: 1
        }),
        unexpected(Expected::Boolean, 1)
    );
    assert_eq!(
        ParseError::UnexpectedEndOfInput.furthest(late.clone()),
        ParseError::UnexpectedEndOfInput
    );
    assert_eq!(
        late.clone().furthest(ParseError::UnexpectedEndOfInput),
        ParseError::UnexpectedEndOfInput
    );
    assert_eq!(early.clone().shifted(4), unexpected(Expected::Digit, 5));
    assert_eq!(ParseError::UnexpectedEndOfInput.shifted(4), ParseError::UnexpectedEndOfInput);
    assert_eq!(
        ParseError::NumberOverflow { digits: "9".to_string(), position: 0 }.shifted(2),
        ParseError::NumberOverflow { digits: "9".to_string(), position: 2 }
    );
    assert_eq!(early.position(), Some(1));
    assert_eq!(ParseError::UnexpectedEndOfInput.position(), None);
    assert_eq!(ParseError::TrailingInput { position: 9 }.position(), Some(9));
}

#[test]
fn tokens_read_as_they_are_written() {
    assert_eq!(Token::Let.as_str(), "let ");
    assert_eq!(Token::Return.as_str(), "return");
    assert_eq!(Token::Fn.as_str(), "fn");
    assert_eq!(Token::Quote.as_str(), "\"");
    assert_eq!(Token::CarriageReturn.as_str(), "\r");
    assert_eq!(Token::LineFeed.as_str(), "\n");
}
