use minilang::{
    arguments, boolean, comment, expression, function_call, function_definition, function_return,
    identifier, l1, l1_infix, l2, l2_infix, l3, l3_infix, l4, math_expression, number, parse,
    parenthetical_expression, program, statement, string, variable_define, Node,
};

fn num(value: i32) -> Node {
    Node::Number { value }
}

fn id(name: &str) -> Node {
    Node::Identifier { value: name.to_string() }
}

fn math(op: &str, left: Node, right: Node) -> Node {
    Node::MathExpression { name: op.to_string(), children: vec![left, right] }
}

fn expr(inner: Node) -> Node {
    Node::Expression { children: vec![inner] }
}

fn args(items: Vec<Node>) -> Node {
    Node::FunctionArguments { children: items }
}

fn call(name: &str, items: Vec<Node>) -> Node {
    Node::FunctionCall { name: name.to_string(), children: vec![args(items)] }
}

#[test]
fn number_takes_the_longest_run_of_digits() {
    assert_eq!(number("123abc"), Ok(("abc", num(123))));
    assert_eq!(number("7"), Ok(("", num(7))));
    assert_eq!(number("007 "), Ok((" ", num(7))));
    assert_eq!(number("0"), Ok(("", num(0))));
}

#[test]
fn number_accepts_the_largest_i32() {
    assert_eq!(number("2147483647"), Ok(("", num(2147483647))));
    assert_eq!(number("0000000002147483647;"), Ok((";", num(2147483647))));
}

#[test]
fn identifier_takes_letters_and_digits() {
    assert_eq!(identifier("abc123 def"), Ok((" def", id("abc123"))));
    assert_eq!(identifier("9lives+"), Ok(("+", id("9lives"))));
    assert_eq!(identifier("x"), Ok(("", id("x"))));
}

#[test]
fn identifier_stops_at_non_ascii_letters() {
    assert_eq!(identifier("ab\u{e9}c"), Ok(("\u{e9}c", id("ab"))));
}

#[test]
fn boolean_matches_both_literals() {
    assert_eq!(boolean("true"), Ok(("", Node::Bool { value: true })));
    assert_eq!(boolean("false"), Ok(("", Node::Bool { value: false })));
    assert_eq!(boolean("truex"), Ok(("x", Node::Bool { value: true })));
    assert_eq!(boolean("false;"), Ok((";", Node::Bool { value: false })));
}

#[test]
fn string_literal_keeps_interior_spacing() {
    assert_eq!(
        string("\"hello world\""),
        Ok(("", Node::String { value: "hello world".to_string() }))
    );
    assert_eq!(
        string("\"  a \t b2  \"rest"),
        Ok(("rest", Node::String { value: "  a \t b2  ".to_string() }))
    );
    assert_eq!(string("\"x\"\"y\""), Ok(("\"y\"", Node::String { value: "x".to_string() })));
}

#[test]
fn comment_keeps_nothing_of_the_word() {
    assert_eq!(comment("abc def"), Ok((" def", id(""))));
}

#[test]
fn precedence_of_product_over_sum() {
    assert_eq!(
        math_expression("1+2*3"),
        Ok(("", math("+", num(1), math("*", num(2), num(3)))))
    );
    assert_eq!(
        math_expression("1*2+3"),
        Ok(("", math("+", math("*", num(1), num(2)), num(3))))
    );
}

#[test]
fn precedence_of_power_over_product() {
    assert_eq!(
        math_expression("2*3^4"),
        Ok(("", math("*", num(2), math("^", num(3), num(4)))))
    );
}

#[test]
fn subtraction_groups_to_the_left() {
    assert_eq!(
        math_expression("1-2-3"),
        Ok(("", math("-", math("-", num(1), num(2)), num(3))))
    );
}

#[test]
fn division_and_power_group_to_the_left() {
    assert_eq!(l2("8/4/2"), Ok(("", math("/", math("/", num(8), num(4)), num(2)))));
    assert_eq!(l3("2^3^2"), Ok(("", math("^", math("^", num(2), num(3)), num(2)))));
}

#[test]
fn spaces_around_operators_leave_no_trace() {
    assert_eq!(math_expression("1 +  2"), Ok(("", math("+", num(1), num(2)))));
    assert_eq!(math_expression("a  *b"), Ok(("", math("*", id("a"), id("b")))));
    assert_eq!(math_expression("1 + "), Ok((" + ", num(1))));
}

#[test]
fn parentheses_override_precedence() {
    assert_eq!(
        math_expression("(1+2)*3"),
        Ok(("", math("*", math("+", num(1), num(2)), num(3))))
    );
    assert_eq!(parenthetical_expression("(7)x"), Ok(("x", num(7))));
    assert_eq!(parenthetical_expression("((a-1))"), Ok(("", math("-", id("a"), num(1)))));
}

#[test]
fn levels_parse_their_own_operators_only() {
    assert_eq!(l1("1+2"), Ok(("", math("+", num(1), num(2)))));
    assert_eq!(l2("1+2"), Ok(("+2", num(1))));
    assert_eq!(l3("2*3"), Ok(("*3", num(2))));
    assert_eq!(l4("12ab"), Ok(("ab", num(12))));
    assert_eq!(l4("ab12"), Ok(("", id("ab12"))));
    assert_eq!(l4("f(1)"), Ok(("(1)", id("f"))));
}

#[test]
fn infix_continuations_hold_the_right_operand_only() {
    assert_eq!(
        l1_infix(" + 2*3"),
        Ok((
            "",
            Node::MathExpression {
                name: "+".to_string(),
                children: vec![math("*", num(2), num(3))]
            }
        ))
    );
    assert_eq!(
        l1_infix("-x y"),
        Ok((" y", Node::MathExpression { name: "-".to_string(), children: vec![id("x")] }))
    );
    assert_eq!(
        l2_infix("/4+1"),
        Ok(("+1", Node::MathExpression { name: "/".to_string(), children: vec![num(4)] }))
    );
    assert_eq!(
        l2_infix("* 4"),
        Ok(("", Node::MathExpression { name: "*".to_string(), children: vec![num(4)] }))
    );
    assert_eq!(
        l3_infix(" ^ 2"),
        Ok(("", Node::MathExpression { name: "^".to_string(), children: vec![num(2)] }))
    );
}

#[test]
fn expression_wraps_the_first_alternative_that_matches() {
    assert_eq!(expression("foo(1)"), Ok(("", expr(call("foo", vec![expr(num(1))])))));
    assert_eq!(expression("true"), Ok(("", expr(Node::Bool { value: true }))));
    assert_eq!(
        expression("\"a b\""),
        Ok(("", expr(Node::String { value: "a b".to_string() })))
    );
    assert_eq!(expression("1+x"), Ok(("", expr(math("+", num(1), id("x"))))));
    assert_eq!(expression("42;"), Ok((";", expr(num(42)))));
    assert_eq!(expression("abc)"), Ok((")", expr(id("abc")))));
}

#[test]
fn expression_prefers_boolean_to_identifier() {
    assert_eq!(expression("truex"), Ok(("x", expr(Node::Bool { value: true }))));
    assert_eq!(expression("tru"), Ok(("", expr(id("tru")))));
}

#[test]
fn expression_reads_an_overlong_digit_run_as_an_identifier() {
    assert_eq!(expression("99999999999"), Ok(("", expr(id("99999999999")))));
}

#[test]
fn function_call_with_two_arguments() {
    assert_eq!(
        function_call("foo(1,2)"),
        Ok(("", call("foo", vec![expr(num(1)), expr(num(2))])))
    );
}

#[test]
fn function_call_without_arguments() {
    assert_eq!(function_call("now()+1"), Ok(("+1", call("now", vec![]))));
}

#[test]
fn function_calls_nest() {
    assert_eq!(
        function_call("f(g(1),\"s\")"),
        Ok((
            "",
            call(
                "f",
                vec![
                    expr(call("g", vec![expr(num(1))])),
                    expr(Node::String { value: "s".to_string() })
                ]
            )
        ))
    );
}

#[test]
fn arguments_may_be_empty() {
    assert_eq!(arguments("()"), Ok(("", args(vec![]))));
    assert_eq!(arguments("(a,b,c) "), Ok((" ", args(vec![expr(id("a")), expr(id("b")), expr(id("c"))]))));
}

#[test]
fn variable_definition_in_a_statement() {
    assert_eq!(
        statement("let x = 5;"),
        Ok((
            "",
            Node::Statement {
                children: vec![Node::VariableDefine { children: vec![id("x"), expr(num(5))] }]
            }
        ))
    );
}

#[test]
fn variable_definition_takes_spaces_around_the_sign_as_they_come() {
    let expected = Node::VariableDefine { children: vec![id("y"), expr(math("+", num(1), num(2)))] };
    assert_eq!(variable_define("let y=1+2"), Ok(("", expected.clone())));
    assert_eq!(variable_define("let y   =   1+2;"), Ok((";", expected)));
}

#[test]
fn function_return_leaves_the_terminator() {
    assert_eq!(
        function_return("return x;"),
        Ok((";", Node::FunctionReturn { children: vec![expr(id("x"))] }))
    );
    assert_eq!(
        function_return("return1"),
        Ok(("", Node::FunctionReturn { children: vec![expr(num(1))] }))
    );
}

#[test]
fn return_statement_takes_one_terminator() {
    assert_eq!(
        statement("return a*2;;"),
        Ok((
            ";",
            Node::Statement {
                children: vec![Node::FunctionReturn {
                    children: vec![expr(math("*", id("a"), num(2)))]
                }]
            }
        ))
    );
}

#[test]
fn function_definition_collects_name_arguments_and_body() {
    let expected = Node::FunctionDefine {
        children: vec![
            id("add"),
            args(vec![expr(id("a")), expr(id("b"))]),
            Node::Statement {
                children: vec![Node::VariableDefine {
                    children: vec![id("c"), expr(math("+", id("a"), id("b")))],
                }],
            },
            Node::Statement {
                children: vec![Node::FunctionReturn { children: vec![expr(id("c"))] }],
            },
        ],
    };
    assert_eq!(
        function_definition("fn add((a,b)) { let c = a+b;return c; }  rest"),
        Ok(("rest", expected.clone()))
    );
    assert_eq!(function_definition("fnadd((a,b)){let c = a+b;return c;}"), Ok(("", expected)));
}

#[test]
fn function_definition_with_an_expression_body() {
    assert_eq!(
        function_definition("fn one (()) {1}"),
        Ok(("", Node::FunctionDefine { children: vec![id("one"), args(vec![]), expr(num(1))] }))
    );
}

#[test]
fn program_collects_items_in_source_order() {
    assert_eq!(
        program("fn f(()){1}let x = f();x"),
        Ok((
            "",
            Node::Program {
                children: vec![
                    Node::FunctionDefine { children: vec![id("f"), args(vec![]), expr(num(1))] },
                    Node::Statement {
                        children: vec![Node::VariableDefine {
                            children: vec![id("x"), expr(call("f", vec![]))]
                        }]
                    },
                    expr(id("x")),
                ]
            }
        ))
    );
}

#[test]
fn program_stops_where_nothing_matches() {
    assert_eq!(
        program("1+2 ?"),
        Ok((" ?", Node::Program { children: vec![expr(math("+", num(1), num(2)))] }))
    );
}

#[test]
fn parse_accepts_a_fully_consumed_text() {
    let expected = Node::Program {
        children: vec![Node::Statement {
            children: vec![Node::VariableDefine { children: vec![id("x"), expr(num(5))] }],
        }],
    };
    assert_eq!(parse("let x = 5;"), Ok(expected.clone()));
    assert_eq!(parse("let x = 5; \t\r\n\n"), Ok(expected));
}

#[test]
fn parsing_twice_gives_the_same_tree() {
    let text = "fn f((a)) {return a^2;}let y = f(3);y*(1+y)";
    let first = parse(text);
    let second = parse(&text.to_string());
    assert!(first.is_ok());
    assert_eq!(first, second);
    assert_eq!(program(text), program(text));
}

#[test]
fn clone_of_a_tree_equals_the_tree() {
    let tree = parse("fn f((a)) {return a^2;}let y = f(3);\"s\"true").unwrap();
    assert_eq!(tree.clone(), tree);
}
