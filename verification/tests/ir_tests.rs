use mossc::ast::{
    Declaration, Expression, Function, InfixExpression, Node, PrefixExpression, Statement, Variable, VariableType,
};
use mossc::ir::{IdStore, IrError, Op, Value, ValueType, Fn, IR};
use mossc::lexer::{lex, Token};
use mossc::parser::Parser;
use mossc::symbol_table::VariableInfo;

fn program(src: &str) -> Node {
    let mut parser = Parser::new(lex(src.to_string()));
    match parser.try_parse() {
        Ok(node) => node,
        Err(_) => panic!("no program"),
    }
}

fn ssa(src: &str) -> Result<Vec<Fn>, IrError> {
    let mut ir = IR::new();
    ir.try_gen_ssa(&program(src))
}

fn ssa_text(src: &str) -> String {
    match ssa(src) {
        Ok(fns) => fns.iter().map(|f| f.display()).collect::<Vec<_>>().join(""),
        Err(_) => panic!("no code"),
    }
}

#[test]
fn generates_arithmetic_and_return() {
    assert_eq!(
        ssa_text("fn main() u64 { var x u64 = 1 + 2; return x; }"),
        "main:\n\tv1 = CONST 1\n\tv2 = CONST 2\n\tv3 = + v1, v2\n\tv4 = RET_VAL v3\n\tv5 = RET\n"
    );
}

#[test]
fn declaration_without_value_is_zero() {
    assert_eq!(ssa_text("fn f() { var x u8; return x; }"), "f:\n\tv1 = CONST 0\n\tv2 = RET_VAL v1\n\tv3 = RET\n");
}

#[test]
fn assignment_renames_the_variable() {
    assert_eq!(
        ssa_text("fn f() { var x u64 = 1; x = 5; return x; }"),
        "f:\n\tv1 = CONST 1\n\tv2 = CONST 5\n\tv3 = RET_VAL v2\n\tv4 = RET\n"
    );
}

#[test]
fn negation_and_comparison() {
    assert_eq!(
        ssa_text("fn f() { var b bool = 1 < -2; return b; }"),
        "f:\n\tv1 = CONST 1\n\tv2 = CONST 2\n\tv3 = - v2\n\tv4 = < v1, v3\n\tv5 = RET_VAL v4\n\tv6 = RET\n"
    );
}

#[test]
fn numbering_continues_across_functions() {
    assert_eq!(
        ssa_text("fn f() { return 1; } var g u8; fn h() { 2 * 3; }"),
        "f:\n\tv1 = CONST 1\n\tv2 = RET_VAL v1\n\tv3 = RET\nh:\n\tv4 = CONST 2\n\tv5 = CONST 3\n\tv6 = * v4, v5\n"
    );
}

#[test]
fn each_function_has_its_own_scope() {
    assert!(matches!(ssa("fn f() { var x u8 = 1; } fn g() { return x; }"), Err(IrError::UnknownIdentifier(_))));
    assert!(ssa("fn f() { var x u8 = 1; } fn g() { var x u8 = 2; }").is_ok());
}

#[test]
fn ssa_ids_increase_and_arguments_come_first() {
    let fns = ssa("fn f() { var a u64 = 1 + 2 * 3; var b u64 = a - 4; a = b / a; return a; } fn g() { return 7; }")
        .ok()
        .unwrap();
    let text = fns.iter().map(|f| f.display()).collect::<Vec<_>>().join("");
    let mut last = 0u64;
    for line in text.lines().filter(|l| l.starts_with('\t')) {
        let line = line.trim();
        let (def, rest) = line.split_once(" = ").unwrap();
        let id: u64 = def[1..].parse().unwrap();
        assert!(id > last);
        assert_eq!(id, last + 1);
        last = id;
        for arg in rest.split(|c| c == ' ' || c == ',').filter(|a| a.starts_with('v')) {
            let a: u64 = arg[1..].parse().unwrap();
            assert!(a < id);
        }
    }
}

#[test]
fn error_unknown_identifier() {
    match ssa("fn f() { return y; }") {
        Err(IrError::UnknownIdentifier(name)) => assert_eq!(name, "y"),
        _ => panic!("expected an error"),
    }
}

#[test]
fn error_invalid_expression() {
    assert!(matches!(ssa("fn f() { g(1); }"), Err(IrError::InvalidExpression)));
}

#[test]
fn error_invalid_prefix_operator() {
    match ssa("fn f() { !1; }") {
        Err(IrError::InvalidPrefixOperator(t)) => assert_eq!(t, Token::BANG),
        _ => panic!("expected an error"),
    }
}

#[test]
fn error_type_mismatch() {
    match ssa("fn f() { var b bool = 1 < 2; b + 1; }") {
        Err(IrError::TypeMismatch(t)) => assert_eq!(t, Token::PLUS),
        _ => panic!("expected an error"),
    }
}

#[test]
fn error_assignment_without_value() {
    assert!(matches!(ssa("fn f() { var x u64 = 1; var y u64 = 2; x = y; }"), Err(IrError::AssignmentWithoutValue)));
}

#[test]
fn error_assign_to_non_variable() {
    assert!(matches!(ssa("fn f() { 1 = 2; }"), Err(IrError::AssignToNonVariable)));
}

#[test]
fn error_left_and_right_operand_types() {
    assert!(matches!(ssa("fn f() { var b bool = 1 < 2; b + b; }"), Err(IrError::LeftOperandType)));
}

#[test]
fn error_unknown_type() {
    match ssa("fn f() { var x str = 1; }") {
        Err(IrError::UnknownType(t)) => assert_eq!(t, "str"),
        _ => panic!("expected an error"),
    }
    // a variable declared without a type names no type
    assert!(matches!(ssa("fn f() { var x = 1; }"), Err(IrError::UnknownType(_))));
}

#[test]
fn error_redefinition() {
    match ssa("fn f() { var x u8; var x u8; }") {
        Err(IrError::Redefinition(name)) => assert_eq!(name, "x"),
        _ => panic!("expected an error"),
    }
}

#[test]
fn error_unsupported_statement() {
    assert!(matches!(ssa("fn f() { if a { } }"), Err(IrError::UnsupportedStatement)));
    assert!(matches!(ssa("fn f() { for a { } }"), Err(IrError::UnsupportedStatement)));
}

#[test]
fn error_not_a_program() {
    let mut ir = IR::new();
    let node = Node::Statement(Statement::ReturnStatement(Expression::Number(1)));
    assert!(matches!(ir.try_gen_ssa(&node), Err(IrError::NotAProgram)));
}

#[test]
fn error_undefined_variable_and_other_operators() {
    // an expression tree that the parser does not build: a binary operator that the generator does not know
    let mut ir = IR::new();
    let expr = Expression::Infix(InfixExpression {
        op: Token::QUESTION,
        left: Box::new(Expression::Number(1)),
        right: Box::new(Expression::Number(2)),
    });
    let f = Function {
        name: "f".to_string(),
        params: Vec::new(),
        return_types: Vec::new(),
        stmts: vec![Statement::ExpressionStatement(expr)],
    };
    let node = Node::Program(vec![Declaration::FunctionDeclaration(f)]);
    match ir.try_gen_ssa(&node) {
        Err(IrError::InvalidBinaryOperator(t)) => assert_eq!(t, Token::QUESTION),
        _ => panic!("expected an error"),
    }
    let _ = PrefixExpression { op: Token::DASH, operand: Box::new(Expression::Number(1)) };
}

#[test]
fn not_equal_generates_a_comparison() {
    let mut ir = IR::new();
    let cond = Expression::Infix(InfixExpression {
        op: Token::NEQ,
        left: Box::new(Expression::Number(1)),
        right: Box::new(Expression::Number(2)),
    });
    let var = Variable {
        name: "b".to_string(),
        var_type: VariableType { ident: "bool".to_string(), pointer: false, array: false, array_size: 0 },
        value: Some(cond),
    };
    let f = Function {
        name: "f".to_string(),
        params: Vec::new(),
        return_types: Vec::new(),
        stmts: vec![Statement::VariableDeclaration(var)],
    };
    let fns = ir.gen_ssa(&Node::Program(vec![Declaration::FunctionDeclaration(f)]));
    assert_eq!(fns[0].display(), "f:\n\tv1 = CONST 1\n\tv2 = CONST 2\n\tv3 = != v1, v2\n");
    assert_eq!(ir.display(), "f:\n\tv1 = CONST 1\n\tv2 = CONST 2\n\tv3 = != v1, v2\n");
}

#[test]
fn builtins_in_global_scope() {
    let mut ir = IR::new();
    let _ = ir.gen_ssa(&Node::Program(Vec::new()));
    assert_eq!(
        ir.global_scope_display().unwrap(),
        "SymbolTable:\n[type: u8 | size: 1]\n[type: u16 | size: 2]\n[type: u32 | size: 4]\n[type: u64 | size: 8]\n[type: i8 | size: 1]\n[type: i16 | size: 2]\n[type: i32 | size: 4]\n[type: i64 | size: 8]\n[type: char | size: 1]\n[type: bool | size: 1]\n"
    );
}

#[test]
fn update_variable_changes_innermost_definition() {
    let mut ir = IR::new();
    let _ = ir.gen_ssa(&Node::Program(Vec::new()));
    let info = VariableInfo {
        id: 9,
        var_type: VariableType { ident: "u8".to_string(), pointer: false, array: false, array_size: 0 },
    };
    // no scope holds `x`: nothing changes
    ir.update_variable("x", info);
    assert!(ir.global_scope_display().unwrap().find("x").is_none());
}

#[test]
fn id_store_counts_up() {
    let mut ids = IdStore::new();
    assert_eq!(ids.next(), 1);
    assert_eq!(ids.next(), 2);
    assert_eq!(ids.next(), 3);
}

#[test]
fn fn_code_is_appended() {
    let mut f = Fn::new("f");
    f.add_value(Value { id: 1, op: Op::CONST, arg1: Some(ValueType::CONST(4)), arg2: None });
    let mut more = vec![Value { id: 2, op: Op::ADD, arg1: Some(ValueType::ID(1)), arg2: Some(ValueType::CONST(3)) }];
    f.add_code(&mut more);
    assert!(more.is_empty());
    assert_eq!(f.display(), "f:\n\tv1 = CONST 4\n\tv2 = + v1, 3\n");
}

#[test]
fn value_display() {
    let v = Value { id: 7, op: Op::RET, arg1: None, arg2: None };
    assert_eq!(v.display(), "v7 = RET");
    assert_eq!(Op::XOR.display(), "^");
    assert_eq!(ValueType::ID(3).display(), "3");
}

#[test]
fn grouping_and_inequality_from_source() {
    assert_eq!(
        ssa_text("fn f(a u64, b u64) bool { var c bool = (1 + 2) != 3; return c; }"),
        "f:\n\tv1 = CONST 1\n\tv2 = CONST 2\n\tv3 = + v1, v2\n\tv4 = CONST 3\n\tv5 = != v3, v4\n\tv6 = RET_VAL v5\n\tv7 = RET\n"
    );
}
