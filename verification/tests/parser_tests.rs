use minilang::ast::{Expr, ExprOperations, Stmt, VarCalling};
use minilang::lexer::tokenize;
use minilang::lexer::tokens::Tokens;
use minilang::parser::expression::{
    continue_until_another_op, normalize_parse_expression, parse_argument_array,
    parse_argument_array_checked, parse_argument_functions, parse_argument_functions_checked,
    parse_expression, parse_expression_checked,
};
use minilang::parser::{parse, parse_checked};

fn word(s: &str) -> Tokens {
    Tokens::Statement(s.to_string())
}

fn lex(s: &str) -> Vec<Tokens> {
    tokenize(&s.to_string()).unwrap()
}

fn parse_program(s: &str) -> (Vec<Stmt>, usize) {
    let tokens = lex(s);
    let mut index = 0;
    let statements = parse(&tokens, &mut index);
    (statements, index)
}

fn var(name: &str) -> Expr {
    Expr::VarCall(VarCalling { name: name.to_string() })
}

#[test]
fn parses_an_assignment() {
    let (statements, index) = parse_program("x = 1 + 2;\n");
    assert_eq!(index, 6);
    assert_eq!(
        format!("{:?}", statements),
        "[Expression(Operations(ExprOperations { instructions: [VarAssign(VarAssign { name: \"x\", value: ExprOperations { instructions: [Number(\"1\"), Add, Number(\"2\")], is_bool: false } })], is_bool: false }))]"
    );
}

#[test]
fn products_are_grouped() {
    let tokens = lex("a * b + c;\n");
    let mut index = 0;
    let (parts, is_bool) = parse_expression(&tokens, &mut index);
    assert_eq!(index, 5);
    assert!(!is_bool);
    assert_eq!(
        format!("{:?}", parts),
        "[Operations(ExprOperations { instructions: [VarCall(VarCalling { name: \"a\" }), Multiply, VarCall(VarCalling { name: \"b\" })], is_bool: false }), Add, VarCall(VarCalling { name: \"c\" })]"
    );
}

#[test]
fn parses_if_else() {
    let (statements, index) =
        parse_program("if (x > 1) { print x; } else { print 2; }\n");
    assert_eq!(index, 17);
    assert_eq!(
        format!("{:?}", statements),
        "[If(If { condition: [VarCall(VarCalling { name: \"x\" }), BiggerThan, Number(\"1\")], condition_bool: true, if_then: [Print(ExprOperations { instructions: [VarCall(VarCalling { name: \"x\" })], is_bool: false })], elif_then: [], else_then: [Print(ExprOperations { instructions: [Number(\"2\")], is_bool: false })] })]"
    );
}

#[test]
fn parses_if_elif() {
    let (statements, _) = parse_program("if (a) { b; } elif (c) { d; }\n");
    assert_eq!(
        format!("{:?}", statements),
        "[If(If { condition: [VarCall(VarCalling { name: \"a\" })], condition_bool: false, if_then: [Expression(Operations(ExprOperations { instructions: [VarCall(VarCalling { name: \"b\" })], is_bool: false }))], elif_then: [Elif { condition: [VarCall(VarCalling { name: \"c\" })], condition_bool: false, then_body: [Expression(Operations(ExprOperations { instructions: [VarCall(VarCalling { name: \"d\" })], is_bool: false }))] }], else_then: [] })]"
    );
}

#[test]
fn parses_a_while_loop() {
    let (statements, index) = parse_program("while (i < 3) { i++; }\n");
    assert_eq!(index, 11);
    assert_eq!(
        format!("{:?}", statements),
        "[WhileLoop(WhileLoop { condition: [VarCall(VarCalling { name: \"i\" }), SmallerThan, Number(\"3\")], is_bool: true, body: [Expression(Operations(ExprOperations { instructions: [Increment(VarCalling { name: \"i\" })], is_bool: false }))] })]"
    );
}

#[test]
fn parses_a_for_loop() {
    let (statements, index) = parse_program("for (i = 0; i < 3; i++) { print i; }\n");
    assert_eq!(index, 18);
    assert_eq!(
        format!("{:?}", statements),
        "[ForLoop(ForLoop { init: [Operations(ExprOperations { instructions: [VarAssign(VarAssign { name: \"i\", value: ExprOperations { instructions: [Number(\"0\")], is_bool: false } })], is_bool: false })], condition: [VarCall(VarCalling { name: \"i\" }), SmallerThan, Number(\"3\")], is_bool: true, increment: [Operations(ExprOperations { instructions: [Increment(VarCalling { name: \"i\" })], is_bool: false })], body: [Print(ExprOperations { instructions: [VarCall(VarCalling { name: \"i\" })], is_bool: false })] })]"
    );
}

#[test]
fn parses_a_function_definition() {
    let (statements, index) = parse_program("define add(a, b) { return a + b; }\n");
    assert_eq!(index, 14);
    assert_eq!(
        format!("{:?}", statements),
        "[FuncAssign(FuncAssign { name: \"add\", arguments: [\"a\", \"b\"], body: [Return(Operations(ExprOperations { instructions: [VarCall(VarCalling { name: \"a\" }), Add, VarCall(VarCalling { name: \"b\" })], is_bool: false }))] })]"
    );
}

#[test]
fn parses_a_function_call() {
    let (statements, index) = parse_program("x = add(1, 2);\n");
    assert_eq!(index, 9);
    assert_eq!(
        format!("{:?}", statements),
        "[Expression(Operations(ExprOperations { instructions: [VarAssign(VarAssign { name: \"x\", value: ExprOperations { instructions: [FuncCall(FuncCall { name: \"add\", arguments: [ExprOperations { instructions: [Number(\"1\")], is_bool: false }, ExprOperations { instructions: [Number(\"2\")], is_bool: false }] })], is_bool: false } })], is_bool: false }))]"
    );
}

#[test]
fn parses_break_continue_and_bare_keywords() {
    let (statements, _) = parse_program("break; continue; return;\n");
    assert_eq!(
        format!("{:?}", statements),
        "[Break, Continue, Return(Operations(ExprOperations { instructions: [], is_bool: false }))]"
    );
}

#[test]
fn a_block_is_a_statement() {
    let (statements, index) = parse_program("{ x; }\n");
    assert_eq!(index, 4);
    assert_eq!(
        format!("{:?}", statements),
        "[Block([Expression(Operations(ExprOperations { instructions: [VarCall(VarCalling { name: \"x\" })], is_bool: false }))])]"
    );
}

#[test]
fn parsing_stops_at_a_closing_brace() {
    let tokens = vec![word("x"), Tokens::SemmiColon, Tokens::CloseCurlyBrackets, word("y")];
    let mut index = 0;
    let statements = parse(&tokens, &mut index);
    assert_eq!(index, 2);
    assert_eq!(statements.len(), 1);
}

#[test]
fn parsing_from_past_the_end_gives_nothing() {
    let tokens = vec![word("x")];
    let mut index = 5;
    assert!(parse(&tokens, &mut index).is_empty());
    assert_eq!(index, 5);
}

#[test]
fn a_define_at_the_end_reads_past_it() {
    let tokens = vec![word("define")];
    let mut index = 0;
    assert!(parse_checked(&tokens, &mut index).is_none());
}

#[test]
fn an_empty_word_is_refused() {
    let tokens = vec![word("")];
    let mut index = 0;
    assert!(parse_checked(&tokens, &mut index).is_none());
}

#[test]
fn an_array_index_at_the_end_is_read_twice() {
    let tokens = vec![
        word("arr"),
        Tokens::OpenSquaredBrackets,
        word("0"),
        Tokens::CloseSquaredBrackets,
        Tokens::SemmiColon,
    ];
    let mut index = 0;
    let (parts, _) = parse_expression(&tokens, &mut index);
    assert_eq!(index, 4);
    assert_eq!(
        format!("{:?}", parts),
        "[ArrayCall(ArrayCall { name: \"arr\", at: ExprOperations { instructions: [Number(\"0\")], is_bool: false } }), ArrayCall(ArrayCall { name: \"arr\", at: ExprOperations { instructions: [Number(\"0\")], is_bool: false } })]"
    );
}

#[test]
fn parses_an_array_literal() {
    let tokens = vec![
        word("x"),
        Tokens::Equals,
        Tokens::OpenSquaredBrackets,
        word("1"),
        Tokens::Comma,
        word("2"),
        Tokens::CloseSquaredBrackets,
        Tokens::SemmiColon,
    ];
    let mut index = 0;
    let (parts, _) = parse_expression(&tokens, &mut index);
    assert_eq!(index, 7);
    assert_eq!(
        format!("{:?}", parts),
        "[VarAssign(VarAssign { name: \"x\", value: ExprOperations { instructions: [Array([ExprOperations { instructions: [Number(\"1\")], is_bool: false }, ExprOperations { instructions: [Number(\"2\")], is_bool: false }])], is_bool: false } })]"
    );
}

#[test]
fn parses_an_array_assignment() {
    let tokens = vec![
        word("a"),
        Tokens::OpenSquaredBrackets,
        word("0"),
        Tokens::CloseSquaredBrackets,
        Tokens::Equals,
        word("5"),
        Tokens::SemmiColon,
    ];
    let mut index = 0;
    let (parts, _) = parse_expression(&tokens, &mut index);
    assert_eq!(index, 6);
    assert_eq!(
        format!("{:?}", parts),
        "[ArrayCallMod(ArrayCallMod { name: \"a\", at: ExprOperations { instructions: [Number(\"0\")], is_bool: false }, new_value: ExprOperations { instructions: [Number(\"5\")], is_bool: false } })]"
    );
}

#[test]
fn parses_an_internal_call() {
    let tokens = vec![
        word("internal"),
        Tokens::String("len".to_string()),
        Tokens::OpenParenthesis,
        word("x"),
        Tokens::CloseParenthesis,
        Tokens::SemmiColon,
    ];
    let mut index = 0;
    let (parts, _) = parse_expression(&tokens, &mut index);
    assert_eq!(index, 7);
    assert_eq!(
        format!("{:?}", parts),
        "[Internal(FuncCall { name: \"len\", arguments: [ExprOperations { instructions: [Operations(ExprOperations { instructions: [VarCall(VarCalling { name: \"x\" })], is_bool: false })], is_bool: false }] })]"
    );
}

#[test]
fn parses_read() {
    let tokens = vec![word("read"), Tokens::SemmiColon];
    let mut index = 0;
    let (parts, _) = parse_expression(&tokens, &mut index);
    assert_eq!(index, 1);
    assert_eq!(format!("{:?}", parts), "[Read]");
}

#[test]
fn a_word_starting_with_nine_is_a_variable() {
    let tokens = vec![word("9")];
    let mut index = 0;
    let (parts, _) = parse_expression(&tokens, &mut index);
    assert_eq!(index, 0);
    assert_eq!(format!("{:?}", parts), "[VarCall(VarCalling { name: \"9\" })]");
    let tokens = vec![word("8")];
    let mut index = 0;
    let (parts, _) = parse_expression(&tokens, &mut index);
    assert_eq!(format!("{:?}", parts), "[Number(\"8\")]");
}

#[test]
fn self_modifying_operations() {
    let (statements, _) = parse_program("x += 2; y -= 1; z *= 3; w /= 4; v %= 5;\n");
    assert_eq!(
        format!("{:?}", statements),
        "[Expression(Operations(ExprOperations { instructions: [AddTo(ModifyingOperation { name: \"x\", value: ExprOperations { instructions: [Number(\"2\")], is_bool: false } })], is_bool: false })), Expression(Operations(ExprOperations { instructions: [SubtractTo(ModifyingOperation { name: \"y\", value: ExprOperations { instructions: [Number(\"1\")], is_bool: false } })], is_bool: false })), Expression(Operations(ExprOperations { instructions: [MultiplyTo(ModifyingOperation { name: \"z\", value: ExprOperations { instructions: [Number(\"3\")], is_bool: false } })], is_bool: false })), Expression(Operations(ExprOperations { instructions: [DivideTo(ModifyingOperation { name: \"w\", value: ExprOperations { instructions: [Number(\"4\")], is_bool: false } })], is_bool: false })), Expression(Operations(ExprOperations { instructions: [ModTo(ModifyingOperation { name: \"v\", value: ExprOperations { instructions: [Number(\"5\")], is_bool: false } })], is_bool: false }))]"
    );
}

#[test]
fn argument_lists() {
    let tokens = vec![word("1"), Tokens::Comma, word("b"), Tokens::CloseParenthesis];
    let mut index = 0;
    let args = parse_argument_functions(&tokens, &mut index);
    assert_eq!(index, 3);
    assert_eq!(
        format!("{:?}", args),
        "[ExprOperations { instructions: [Number(\"1\")], is_bool: false }, ExprOperations { instructions: [VarCall(VarCalling { name: \"b\" })], is_bool: false }]"
    );
    let tokens = vec![word("1"), Tokens::CloseSquaredBrackets];
    let mut index = 0;
    let items = parse_argument_array(&tokens, &mut index);
    assert_eq!(index, 1);
    assert_eq!(items.len(), 1);
}

#[test]
fn grouping_stops_at_an_additive_operator() {
    let input = vec![var("a"), Expr::Multiply, var("b"), Expr::Add, var("c")];
    let mut index = 0;
    let group = continue_until_another_op(&input, &mut index);
    assert_eq!(index, 3);
    assert_eq!(
        format!("{:?}", group),
        "[VarCall(VarCalling { name: \"a\" }), Multiply, VarCall(VarCalling { name: \"b\" })]"
    );
}

#[test]
fn normalizing_groups_a_remainder() {
    let input = vec![
        Expr::Number("2".to_string()),
        Expr::Mod,
        Expr::Number("3".to_string()),
        Expr::Equals,
        Expr::Number("1".to_string()),
    ];
    let out = normalize_parse_expression(&input);
    assert_eq!(
        format!("{:?}", out),
        "[Operations(ExprOperations { instructions: [Number(\"2\"), Mod, Number(\"3\")], is_bool: false }), Equals, Number(\"1\")]"
    );
}

#[test]
fn law_normalizing_twice_is_normalizing_once() {
    let input = vec![
        var("a"),
        Expr::Multiply,
        var("b"),
        Expr::Subtract,
        var("c"),
        Expr::Divide,
        var("d"),
        Expr::Mod,
        var("e"),
        Expr::AND,
        Expr::NOT,
        var("f"),
    ];
    let once = normalize_parse_expression(&input);
    let twice = normalize_parse_expression(&once);
    assert_eq!(format!("{:?}", once), format!("{:?}", twice));
    for k in 0..once.len() - 1 {
        let operand = matches!(
            once[k],
            Expr::String(_) | Expr::VarCall(_) | Expr::Number(_) | Expr::FuncCall(_)
        );
        let product = matches!(once[k + 1], Expr::Multiply | Expr::Divide | Expr::Mod);
        assert!(!(operand && product));
    }
}

#[test]
fn law_parsed_expressions_are_normalized() {
    let tokens = lex("x * 2 + y % 3 == z;\n");
    let mut index = 0;
    let (parts, is_bool) = parse_expression(&tokens, &mut index);
    assert!(is_bool);
    let again = normalize_parse_expression(&parts);
    assert_eq!(format!("{:?}", parts), format!("{:?}", again));
}

#[test]
fn law_group_ends_at_the_first_ending_operator() {
    let input = vec![var("a"), Expr::Divide, var("b"), Expr::Multiply, var("c"), Expr::OR, var("d")];
    let mut index = 0;
    let group = continue_until_another_op(&input, &mut index);
    assert_eq!(index, 5);
    assert_eq!(group.len(), 5);
    let mut index = 5;
    assert!(continue_until_another_op(&input, &mut index).is_empty());
    assert_eq!(index, 5);
}

#[test]
fn clones_keep_the_tree() {
    let (statements, _) = parse_program("if (a == 1) { print \"x\"; }\n");
    let copy = statements.clone();
    assert_eq!(format!("{:?}", statements), format!("{:?}", copy));
    let ops = ExprOperations { instructions: vec![var("q")], is_bool: true };
    assert_eq!(format!("{:?}", ops.clone()), format!("{:?}", ops));
}

#[test]
fn checked_argument_lists() {
    let tokens = vec![word("1"), Tokens::Comma, word("b"), Tokens::CloseParenthesis];
    let mut index = 0;
    let args = parse_argument_functions_checked(&tokens, &mut index).unwrap();
    assert_eq!(index, 3);
    assert_eq!(args.len(), 2);
    // `internal` and a name, with no token after the name to look at
    let overrun = vec![word("internal"), Tokens::String("f".to_string())];
    let mut index = 0;
    assert!(parse_argument_functions_checked(&overrun, &mut index).is_none());
    let items = vec![word("1"), Tokens::CloseSquaredBrackets];
    let mut index = 0;
    assert_eq!(parse_argument_array_checked(&items, &mut index).unwrap().len(), 1);
    assert_eq!(index, 1);
    let mut index = 0;
    assert!(parse_argument_array_checked(&overrun, &mut index).is_none());
}

#[test]
fn checked_expressions() {
    let tokens = lex("x = 2 * 3;\n");
    let mut index = 0;
    let mut index2 = 0;
    let checked = parse_expression_checked(&tokens, &mut index).unwrap();
    let plain = parse_expression(&tokens, &mut index2);
    assert_eq!(format!("{:?}", checked), format!("{:?}", plain));
    assert_eq!(index, index2);
    let overrun = vec![word("internal"), Tokens::String("f".to_string())];
    let mut index = 0;
    assert!(parse_expression_checked(&overrun, &mut index).is_none());
}

#[test]
fn law_normalizing_keeps_a_sum() {
    let input = vec![var("a"), Expr::Add, var("b"), Expr::Subtract, Expr::Number("3".to_string())];
    let out = normalize_parse_expression(&input);
    assert_eq!(format!("{:?}", out), format!("{:?}", input));
}
