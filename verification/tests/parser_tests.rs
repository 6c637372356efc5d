use mossc::ast::{Declaration, Expression, InfixExpression, Node, PrefixExpression, Statement};
use mossc::lexer::{lex, Token};
use mossc::parser::{ParseError, Parser};

fn parse(src: &str) -> Result<Node, ParseError> {
    let mut parser = Parser::new(lex(src.to_string()));
    parser.try_parse()
}

fn program_text(src: &str) -> String {
    match parse(src) {
        Ok(node) => node.display(),
        Err(_) => panic!("no program"),
    }
}

fn ident(s: &str) -> Expression {
    Expression::Identifier(s.to_string())
}

#[test]
fn parses_an_empty_program() {
    assert_eq!(program_text(""), "PROGRAM\n");
}

#[test]
fn parses_a_function() {
    assert_eq!(
        program_text("fn main() u64 { var x u64 = 1 + 2; return x; }"),
        "PROGRAM\n\tFUNCTION(main)\n\t\tVAR(x, VariableType [ident: u64, pointer: false, array: false, array_size: 0], ((PLUS, +), 1, 2))\n\t\tRETURN(x)\n\n"
    );
}

#[test]
fn parses_parameters_and_return_types() {
    match parse("fn f(a u8, b u16) u8, u16 { }") {
        Ok(Node::Program(decls)) => match &decls[0] {
            Declaration::FunctionDeclaration(f) => {
                assert_eq!(f.name, "f");
                assert_eq!(f.params.len(), 2);
                assert_eq!(f.params[0].name, "a");
                assert_eq!(f.params[0].var_type.ident, "u8");
                assert_eq!(f.params[1].name, "b");
                assert_eq!(f.params[1].var_type.ident, "u16");
                assert_eq!(f.return_types, vec!["u8".to_string(), "u16".to_string()]);
                assert!(f.stmts.is_empty());
            },
            _ => panic!("not a function"),
        },
        _ => panic!("no program"),
    }
}

#[test]
fn parameters_need_commas_between_them() {
    match parse("fn f(a u8 b u16) { }") {
        Err(ParseError::Expected(expected, got)) => {
            assert_eq!(expected, Token::COMMA);
            assert_eq!(got, Token::IDENTIFIER("b".to_string()));
        },
        _ => panic!("expected an error"),
    }
}

#[test]
fn precedence_of_products_over_sums() {
    let node = parse("var x = 1 + 2 * 3;").ok().unwrap();
    match node {
        Node::Program(decls) => match &decls[0] {
            Declaration::VariableDeclaration(v) => {
                assert_eq!(v.var_type.ident, "");
                assert_eq!(
                    v.value,
                    Some(Expression::Infix(InfixExpression {
                        op: Token::PLUS,
                        left: Box::new(Expression::Number(1)),
                        right: Box::new(Expression::Infix(InfixExpression {
                            op: Token::ASTERISK,
                            left: Box::new(Expression::Number(2)),
                            right: Box::new(Expression::Number(3)),
                        })),
                    }))
                );
            },
            _ => panic!("not a variable"),
        },
        _ => panic!("not a program"),
    }
}

#[test]
fn operators_of_one_level_group_to_the_left() {
    assert_eq!(
        program_text("fn f() { a - b - c; }"),
        "PROGRAM\n\tFUNCTION(f)\n\t\tEXPR(((DASH, -), ((DASH, -), a, b), c))\n\n"
    );
}

#[test]
fn prefix_binds_tighter_than_infix() {
    assert_eq!(
        program_text("fn f() { -a + b; }"),
        "PROGRAM\n\tFUNCTION(f)\n\t\tEXPR(((PLUS, +), ((DASH, -), a), b))\n\n"
    );
}

#[test]
fn assignment_binds_loosest() {
    assert_eq!(
        program_text("fn f() { a = b < c; }"),
        "PROGRAM\n\tFUNCTION(f)\n\t\tEXPR(((ASSIGN, =), a, ((LT, <), b, c)))\n\n"
    );
}

#[test]
fn parses_a_call() {
    let node = parse("fn f() { g(1); }").ok().unwrap();
    assert_eq!(node.display(), "PROGRAM\n\tFUNCTION(f)\n\t\tEXPR(CALL g(1,))\n\n");
    let node = parse("fn f() { g(); }").ok().unwrap();
    assert_eq!(node.display(), "PROGRAM\n\tFUNCTION(f)\n\t\tEXPR(CALL g())\n\n");
}

#[test]
fn parses_for_and_if() {
    assert_eq!(
        program_text("fn f() { for i < 3 { i = i + 1; } if a { return b; } }"),
        "PROGRAM\n\tFUNCTION(f)\n\t\tFOR(, COND: ((LT, <), i, 3))\n\t\t\tEXPR(((ASSIGN, =), i, ((PLUS, +), i, 1)))\n\t\tIF(a)\n\t\t\tRETURN(b)\n\n"
    );
    assert_eq!(
        program_text("fn f() { for i = 0; i < 3; i = i + 1 { } }"),
        "PROGRAM\n\tFUNCTION(f)\n\t\tFOR(PRE: ((ASSIGN, =), i, 0),, COND: ((LT, <), i, 3), POST: ((ASSIGN, =), i, ((PLUS, +), i, 1)))\n\n\n"
    );
}

#[test]
fn variable_declarations_at_top_level_show_no_type() {
    assert_eq!(program_text("var x u8; var y = 3;"), "PROGRAM\n\tVAR(x, None)\n\tVAR(y, 3)\n");
}

#[test]
fn parse_stops_at_eof() {
    let mut parser = Parser::new(lex("var x u8;".to_string()));
    match parser.parse() {
        Node::Program(decls) => assert_eq!(decls.len(), 1),
        _ => panic!("not a program"),
    }
}

#[test]
fn error_expected_token() {
    match parse("fn main { }") {
        Err(ParseError::Expected(expected, got)) => {
            assert_eq!(expected, Token::LPAREN);
            assert_eq!(got, Token::LBRACE);
        },
        _ => panic!("expected an error"),
    }
}

#[test]
fn error_expected_identifier() {
    match parse("fn 3() { }") {
        Err(ParseError::ExpectedIdentifier(t)) => assert_eq!(t, Token::NUMBER(3)),
        _ => panic!("expected an error"),
    }
    match parse("var = 3;") {
        Err(ParseError::ExpectedIdentifier(t)) => assert_eq!(t, Token::ASSIGN),
        _ => panic!("expected an error"),
    }
}

#[test]
fn error_expected_type_names() {
    match parse("fn f(a 3) { }") {
        Err(ParseError::ExpectedTypeName(t)) => assert_eq!(t, Token::NUMBER(3)),
        _ => panic!("expected an error"),
    }
    match parse("fn f() 3 { }") {
        Err(ParseError::ExpectedReturnType(t)) => assert_eq!(t, Token::NUMBER(3)),
        _ => panic!("expected an error"),
    }
}

#[test]
fn error_no_matching_declaration() {
    assert!(matches!(parse("x = 3;"), Err(ParseError::NoMatchingDeclaration)));
}

#[test]
fn error_cannot_infer_type() {
    match parse("var x;") {
        Err(ParseError::CannotInferType(name)) => assert_eq!(name, "x"),
        _ => panic!("expected an error"),
    }
}

#[test]
fn error_expected_semicolon_or_assign() {
    match parse("var x u8 3;") {
        Err(ParseError::ExpectedSemicolonOrAssign(t)) => assert_eq!(t, Token::NUMBER(3)),
        _ => panic!("expected an error"),
    }
}

#[test]
fn error_expected_for_separator() {
    match parse("fn f() { for a ) }") {
        Err(ParseError::ExpectedForSeparator(t)) => assert_eq!(t, Token::RPAREN),
        _ => panic!("expected an error"),
    }
}

#[test]
fn error_expected_prefix_expression() {
    match parse("fn f() { return ); }") {
        Err(ParseError::ExpectedPrefixExpression(t)) => assert_eq!(t, Token::RPAREN),
        _ => panic!("expected an error"),
    }
}

#[test]
fn unclosed_group_is_refused() {
    match parse("fn f() { return (1; }") {
        Err(ParseError::Expected(expected, got)) => {
            assert_eq!(expected, Token::RPAREN);
            assert_eq!(got, Token::SEMICOLON);
        },
        _ => panic!("expected an error"),
    }
}

fn infix(op: Token, left: Expression, right: Expression) -> Expression {
    Expression::Infix(InfixExpression { op, left: Box::new(left), right: Box::new(right) })
}

fn first_value(src: &str) -> Expression {
    match parse(src) {
        Ok(Node::Program(decls)) => match decls.into_iter().next() {
            Some(Declaration::VariableDeclaration(v)) => v.value.unwrap(),
            _ => panic!("not a variable"),
        },
        _ => panic!("no program"),
    }
}

#[test]
fn parenthesised_group() {
    assert_eq!(
        first_value("var x = (a + b) * c;"),
        infix(Token::ASTERISK, infix(Token::PLUS, ident("a"), ident("b")), ident("c"))
    );
    assert_eq!(first_value("var x = ((a));"), ident("a"));
}

#[test]
fn boolean_literals_and_pointer_prefixes() {
    assert_eq!(first_value("var x = true;"), Expression::Bool(true));
    assert_eq!(first_value("var x = false == true;"), infix(Token::EQ, Expression::Bool(false), Expression::Bool(true)));
    assert_eq!(
        first_value("var x = *p + &q;"),
        infix(
            Token::PLUS,
            Expression::Prefix(PrefixExpression { op: Token::ASTERISK, operand: Box::new(ident("p")) }),
            Expression::Prefix(PrefixExpression { op: Token::AMPERSAND, operand: Box::new(ident("q")) }),
        )
    );
}

#[test]
fn error_expected_callee() {
    match parse("fn f() { 3(1); }") {
        Err(ParseError::ExpectedCallee(e)) => assert_eq!(e, Expression::Number(3)),
        _ => panic!("expected an error"),
    }
}

#[test]
fn inequality_is_a_comparison() {
    assert_eq!(first_value("var x = a != b;"), infix(Token::NEQ, ident("a"), ident("b")));
    assert_eq!(
        first_value("var x = a + 1 != b;"),
        infix(Token::NEQ, infix(Token::PLUS, ident("a"), Expression::Number(1)), ident("b"))
    );
}

#[test]
fn prefix_expression_structure() {
    let node = parse("var y = ~x;").ok().unwrap();
    match node {
        Node::Program(decls) => match &decls[0] {
            Declaration::VariableDeclaration(v) => assert_eq!(
                v.value,
                Some(Expression::Prefix(PrefixExpression { op: Token::TILDE, operand: Box::new(ident("x")) }))
            ),
            _ => panic!("not a variable"),
        },
        _ => panic!("not a program"),
    }
}

#[test]
fn statement_display() {
    let node = parse("fn f() { var a u8; }").ok().unwrap();
    match node {
        Node::Program(decls) => match &decls[0] {
            Declaration::FunctionDeclaration(f) => {
                assert_eq!(
                    f.stmts[0].display(),
                    "\tVAR(a, VariableType [ident: u8, pointer: false, array: false, array_size: 0], None)"
                );
                assert!(matches!(f.stmts[0], Statement::VariableDeclaration(_)));
            },
            _ => panic!("not a function"),
        },
        _ => panic!("not a program"),
    }
}

fn first_variable_type(src: &str) -> mossc::ast::VariableType {
    match parse(src) {
        Ok(Node::Program(decls)) => match decls.into_iter().next() {
            Some(Declaration::VariableDeclaration(v)) => v.var_type,
            _ => panic!("not a variable"),
        },
        _ => panic!("no program"),
    }
}

#[test]
fn pointer_and_array_types() {
    let p = first_variable_type("var p *u8;");
    assert_eq!((p.ident.as_str(), p.pointer, p.array, p.array_size), ("u8", true, false, 0));
    let a = first_variable_type("var a [4] u16 = 0;");
    assert_eq!((a.ident.as_str(), a.pointer, a.array, a.array_size), ("u16", false, true, 4));
    let plain = first_variable_type("var x u64;");
    assert_eq!((plain.ident.as_str(), plain.pointer, plain.array, plain.array_size), ("u64", false, false, 0));
}

#[test]
fn malformed_types_are_refused() {
    assert!(matches!(parse("var a [n] u8;"), Err(ParseError::ExpectedArraySize(Token::IDENTIFIER(_)))));
    assert!(matches!(parse("var a [4 u8;"), Err(ParseError::Expected(Token::RBRACKET, _))));
    assert!(matches!(parse("var p * 3;"), Err(ParseError::ExpectedTypeName(Token::NUMBER(3)))));
}
