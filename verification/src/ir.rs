//! Generation of static single assignment code from the syntax tree.
use vstd::prelude::*;

use crate::ast::{
    decls_view, expr_view, lemma_stmts_view_index, stmts_view, Declaration, Expression, InfixExpression, Node, PrefixExpression,
    SpecDeclaration, SpecExpression, SpecNode, SpecStatement, SpecVariable, SpecVariableType, Statement,
    Variable, VariableType,
};
use crate::lexer::{law_literal_lexes_back, token_literal, SpecToken, Token};
use crate::symbol_table::{SpecSymbol, SpecVariableInfo, SymbolTable, TypeInfo, VariableInfo};
use crate::text::{decimal, lit, push_str, str_eq, u64_to_decimal};

verus! {

/// The types that every program knows.
#[allow(non_camel_case_types)]
#[derive(Clone, Copy, Debug, Eq, PartialEq)]
pub enum BuiltInTypes {
    // integer types
    u8,
    u16,
    u32,
    u64,
    i8,
    i16,
    i32,
    i64,
    char,
    // Boolean
    bool,
}

/// The name of a built-in type.
pub open spec fn builtin_name(t: BuiltInTypes) -> Seq<char> {
    match t {
        BuiltInTypes::u8 => "u8"@,
        BuiltInTypes::u16 => "u16"@,
        BuiltInTypes::u32 => "u32"@,
        BuiltInTypes::u64 => "u64"@,
        BuiltInTypes::i8 => "i8"@,
        BuiltInTypes::i16 => "i16"@,
        BuiltInTypes::i32 => "i32"@,
        BuiltInTypes::i64 => "i64"@,
        BuiltInTypes::char => "char"@,
        BuiltInTypes::bool => "bool"@,
    }
}

/// The built-in type of a name.
pub open spec fn builtin_from_name(s: Seq<char>) -> Option<BuiltInTypes> {
    if s == "u8"@ { Some(BuiltInTypes::u8) }
    else if s == "u16"@ { Some(BuiltInTypes::u16) }
    else if s == "u32"@ { Some(BuiltInTypes::u32) }
    else if s == "u64"@ { Some(BuiltInTypes::u64) }
    else if s == "i8"@ { Some(BuiltInTypes::i8) }
    else if s == "i16"@ { Some(BuiltInTypes::i16) }
    else if s == "i32"@ { Some(BuiltInTypes::i32) }
    else if s == "i64"@ { Some(BuiltInTypes::i64) }
    else if s == "char"@ { Some(BuiltInTypes::char) }
    else if s == "bool"@ { Some(BuiltInTypes::bool) }
    else { None }
}

/// The size in bytes of a built-in type.
pub open spec fn builtin_size(t: BuiltInTypes) -> u64 {
    match t {
        BuiltInTypes::u8 | BuiltInTypes::i8 | BuiltInTypes::char | BuiltInTypes::bool => 1,
        BuiltInTypes::u16 | BuiltInTypes::i16 => 2,
        BuiltInTypes::u32 | BuiltInTypes::i32 => 4,
        BuiltInTypes::u64 | BuiltInTypes::i64 => 8,
    }
}

/// The built-in types in declaration order.
pub open spec fn all_builtins() -> Seq<BuiltInTypes> {
    seq![
        BuiltInTypes::u8,
        BuiltInTypes::u16,
        BuiltInTypes::u32,
        BuiltInTypes::u64,
        BuiltInTypes::i8,
        BuiltInTypes::i16,
        BuiltInTypes::i32,
        BuiltInTypes::i64,
        BuiltInTypes::char,
        BuiltInTypes::bool,
    ]
}

/// Whether a type name names a numeric built-in type.
pub open spec fn is_numeric_name(s: Seq<char>) -> bool {
    match builtin_from_name(s) {
        Some(t) => t != BuiltInTypes::bool,
        None => false,
    }
}

/// Whether a type name names the Boolean type.
pub open spec fn is_bool_name(s: Seq<char>) -> bool {
    builtin_from_name(s) == Some(BuiltInTypes::bool)
}

fn builtin_type_name(t: BuiltInTypes) -> (s: String)
    ensures
        s@ == builtin_name(t),
{
    match t {
        BuiltInTypes::u8 => lit("u8"),
        BuiltInTypes::u16 => lit("u16"),
        BuiltInTypes::u32 => lit("u32"),
        BuiltInTypes::u64 => lit("u64"),
        BuiltInTypes::i8 => lit("i8"),
        BuiltInTypes::i16 => lit("i16"),
        BuiltInTypes::i32 => lit("i32"),
        BuiltInTypes::i64 => lit("i64"),
        BuiltInTypes::char => lit("char"),
        BuiltInTypes::bool => lit("bool"),
    }
}

fn builtin_type_from_name(s: &str) -> (t: Option<BuiltInTypes>)
    ensures
        t == builtin_from_name(s@),
{
    if str_eq(s, "u8") { Some(BuiltInTypes::u8) }
    else if str_eq(s, "u16") { Some(BuiltInTypes::u16) }
    else if str_eq(s, "u32") { Some(BuiltInTypes::u32) }
    else if str_eq(s, "u64") { Some(BuiltInTypes::u64) }
    else if str_eq(s, "i8") { Some(BuiltInTypes::i8) }
    else if str_eq(s, "i16") { Some(BuiltInTypes::i16) }
    else if str_eq(s, "i32") { Some(BuiltInTypes::i32) }
    else if str_eq(s, "i64") { Some(BuiltInTypes::i64) }
    else if str_eq(s, "char") { Some(BuiltInTypes::char) }
    else if str_eq(s, "bool") { Some(BuiltInTypes::bool) }
    else { None }
}

fn builtin_type_size(builtin_type: BuiltInTypes) -> (size: u64)
    ensures
        size == builtin_size(builtin_type),
{
    match builtin_type {
        BuiltInTypes::u8 | BuiltInTypes::i8 | BuiltInTypes::char | BuiltInTypes::bool => 1,
        BuiltInTypes::u16 | BuiltInTypes::i16 => 2,
        BuiltInTypes::u32 | BuiltInTypes::i32 => 4,
        BuiltInTypes::u64 | BuiltInTypes::i64 => 8,
    }
}

fn is_numeric_type(tname: &str) -> (r: bool)
    ensures
        r == is_numeric_name(tname@),
{
    let builtin_type = match builtin_type_from_name(tname) {
        Some(t) => t,
        None => { return false; },
    };
    match builtin_type {
        BuiltInTypes::u8
        | BuiltInTypes::i8
        | BuiltInTypes::char
        | BuiltInTypes::u16
        | BuiltInTypes::i16
        | BuiltInTypes::u32
        | BuiltInTypes::i32
        | BuiltInTypes::u64
        | BuiltInTypes::i64 => true,
        _ => false,
    }
}

fn is_bool_type(tname: &str) -> (r: bool)
    ensures
        r == is_bool_name(tname@),
{
    let builtin_type = match builtin_type_from_name(tname) {
        Some(t) => t,
        None => { return false; },
    };
    match builtin_type {
        BuiltInTypes::bool => true,
        _ => false,
    }
}

/// A built-in type's name reads back as that type.
pub proof fn law_builtin_name_roundtrip(t: BuiltInTypes)
    ensures
        builtin_from_name(builtin_name(t)) == Some(t),
{
    match t {
        BuiltInTypes::u8 => {
            reveal_strlit("u8");
        },
        BuiltInTypes::u16 => {
            reveal_strlit("u16");
            reveal_strlit("u8");
            assert("u16"@.len() != "u8"@.len());
        },
        BuiltInTypes::u32 => {
            reveal_strlit("u32");
            reveal_strlit("u8");
            assert("u32"@.len() != "u8"@.len());
            reveal_strlit("u16");
            assert("u32"@[1] != "u16"@[1]);
        },
        BuiltInTypes::u64 => {
            reveal_strlit("u64");
            reveal_strlit("u8");
            assert("u64"@.len() != "u8"@.len());
            reveal_strlit("u16");
            assert("u64"@[1] != "u16"@[1]);
            reveal_strlit("u32");
            assert("u64"@[1] != "u32"@[1]);
        },
        BuiltInTypes::i8 => {
            reveal_strlit("i8");
            reveal_strlit("u8");
            assert("i8"@[0] != "u8"@[0]);
            reveal_strlit("u16");
            assert("i8"@.len() != "u16"@.len());
            reveal_strlit("u32");
            assert("i8"@.len() != "u32"@.len());
            reveal_strlit("u64");
            assert("i8"@.len() != "u64"@.len());
        },
        BuiltInTypes::i16 => {
            reveal_strlit("i16");
            reveal_strlit("u8");
            assert("i16"@.len() != "u8"@.len());
            reveal_strlit("u16");
            assert("i16"@[0] != "u16"@[0]);
            reveal_strlit("u32");
            assert("i16"@[0] != "u32"@[0]);
            reveal_strlit("u64");
            assert("i16"@[0] != "u64"@[0]);
            reveal_strlit("i8");
            assert("i16"@.len() != "i8"@.len());
        },
        BuiltInTypes::i32 => {
            reveal_strlit("i32");
            reveal_strlit("u8");
            assert("i32"@.len() != "u8"@.len());
            reveal_strlit("u16");
            assert("i32"@[0] != "u16"@[0]);
            reveal_strlit("u32");
            assert("i32"@[0] != "u32"@[0]);
            reveal_strlit("u64");
            assert("i32"@[0] != "u64"@[0]);
            reveal_strlit("i8");
            assert("i32"@.len() != "i8"@.len());
            reveal_strlit("i16");
            assert("i32"@[1] != "i16"@[1]);
        },
        BuiltInTypes::i64 => {
            reveal_strlit("i64");
            reveal_strlit("u8");
            assert("i64"@.len() != "u8"@.len());
            reveal_strlit("u16");
            assert("i64"@[0] != "u16"@[0]);
            reveal_strlit("u32");
            assert("i64"@[0] != "u32"@[0]);
            reveal_strlit("u64");
            assert("i64"@[0] != "u64"@[0]);
            reveal_strlit("i8");
            assert("i64"@.len() != "i8"@.len());
            reveal_strlit("i16");
            assert("i64"@[1] != "i16"@[1]);
            reveal_strlit("i32");
            assert("i64"@[1] != "i32"@[1]);
        },
        BuiltInTypes::char => {
            reveal_strlit("char");
            reveal_strlit("u8");
            assert("char"@.len() != "u8"@.len());
            reveal_strlit("u16");
            assert("char"@.len() != "u16"@.len());
            reveal_strlit("u32");
            assert("char"@.len() != "u32"@.len());
            reveal_strlit("u64");
            assert("char"@.len() != "u64"@.len());
            reveal_strlit("i8");
            assert("char"@.len() != "i8"@.len());
            reveal_strlit("i16");
            assert("char"@.len() != "i16"@.len());
            reveal_strlit("i32");
            assert("char"@.len() != "i32"@.len());
            reveal_strlit("i64");
            assert("char"@.len() != "i64"@.len());
        },
        BuiltInTypes::bool => {
            reveal_strlit("bool");
            reveal_strlit("u8");
            assert("bool"@.len() != "u8"@.len());
            reveal_strlit("u16");
            assert("bool"@.len() != "u16"@.len());
            reveal_strlit("u32");
            assert("bool"@.len() != "u32"@.len());
            reveal_strlit("u64");
            assert("bool"@.len() != "u64"@.len());
            reveal_strlit("i8");
            assert("bool"@.len() != "i8"@.len());
            reveal_strlit("i16");
            assert("bool"@.len() != "i16"@.len());
            reveal_strlit("i32");
            assert("bool"@.len() != "i32"@.len());
            reveal_strlit("i64");
            assert("bool"@.len() != "i64"@.len());
            reveal_strlit("char");
            assert("bool"@[0] != "char"@[0]);
        },
    }
}

/// No two built-in types share a name.
proof fn lemma_builtin_names_distinct(i: int, j: int)
    requires
        0 <= i < 10,
        0 <= j < 10,
        i != j,
    ensures
        builtin_name(all_builtins()[i]) != builtin_name(all_builtins()[j]),
{
    law_builtin_name_roundtrip(all_builtins()[i]);
    law_builtin_name_roundtrip(all_builtins()[j]);
}

/// Inserting the built-in types from index `i` on leaves every other name as it was.
proof fn lemma_with_builtins_other(m: Map<Seq<char>, SpecSymbol>, i: int, k: Seq<char>)
    requires
        0 <= i <= 10,
        forall|j: int| i <= j < 10 ==> builtin_name(#[trigger] all_builtins()[j]) != k,
    ensures
        with_builtins(m, i).get(k) == m.get(k),
    decreases 10 - i,
{
    if i < 10 {
        let m1 = m.insert(builtin_name(all_builtins()[i]), SpecSymbol::Type(builtin_size(all_builtins()[i])));
        lemma_with_builtins_other(m1, i + 1, k);
    }
}

proof fn lemma_builtin_defined_at(m: Map<Seq<char>, SpecSymbol>, i: int, j: int)
    requires
        0 <= i <= j < 10,
    ensures
        with_builtins(m, i).get(builtin_name(all_builtins()[j]))
            == Some(SpecSymbol::Type(builtin_size(all_builtins()[j]))),
    decreases j - i,
{
    let m1 = m.insert(builtin_name(all_builtins()[i]), SpecSymbol::Type(builtin_size(all_builtins()[i])));
    if i == j {
        assert forall|k: int| i + 1 <= k < 10 implies
            builtin_name(#[trigger] all_builtins()[k]) != builtin_name(all_builtins()[j]) by {
            lemma_builtin_names_distinct(k, j);
        }
        lemma_with_builtins_other(m1, i + 1, builtin_name(all_builtins()[j]));
    } else {
        lemma_builtin_defined_at(m1, i + 1, j);
    }
}

/// Once the generator has set up its outermost scope, the name of each built-in type stands
/// there for a type of that built-in type's size.
pub proof fn law_builtins_defined(m: Map<Seq<char>, SpecSymbol>, t: BuiltInTypes)
    ensures
        with_builtins(m, 0).get(builtin_name(t)) == Some(SpecSymbol::Type(builtin_size(t))),
{
    match t {
        BuiltInTypes::u8 => lemma_builtin_defined_at(m, 0, 0),
        BuiltInTypes::u16 => lemma_builtin_defined_at(m, 0, 1),
        BuiltInTypes::u32 => lemma_builtin_defined_at(m, 0, 2),
        BuiltInTypes::u64 => lemma_builtin_defined_at(m, 0, 3),
        BuiltInTypes::i8 => lemma_builtin_defined_at(m, 0, 4),
        BuiltInTypes::i16 => lemma_builtin_defined_at(m, 0, 5),
        BuiltInTypes::i32 => lemma_builtin_defined_at(m, 0, 6),
        BuiltInTypes::i64 => lemma_builtin_defined_at(m, 0, 7),
        BuiltInTypes::char => lemma_builtin_defined_at(m, 0, 8),
        BuiltInTypes::bool => lemma_builtin_defined_at(m, 0, 9),
    }
}

/// An argument of an instruction: the value of an earlier instruction, or a constant.
#[derive(Clone, Copy, Debug, Eq, PartialEq)]
pub enum ValueType {
    ID(u64),
    CONST(u64),
}

/// Issues the numbers of instructions, counting up from 1.
pub struct IdStore {
    pub next_id: u64,
}

impl IdStore {
    pub fn new() -> (s: Self)
        ensures
            s.next_id == 0,
    {
        IdStore { next_id: 0 }
    }

    /// The next number; each call returns one more than the call before.
    pub fn next(&mut self) -> (id: u64)
        requires
            old(self).next_id < u64::MAX,
        ensures
            id == old(self).next_id + 1,
            final(self).next_id == id,
    {
        self.next_id = self.next_id + 1;
        self.next_id
    }
}

/// An instruction's operation.
#[allow(non_camel_case_types)]
#[derive(Clone, Copy, Debug, Eq, PartialEq)]
pub enum Op {
    CONST,
    COPY,
    // arithmetic ops
    NEG,
    ADD,
    MULT,
    SUB,
    DIV,
    // logic ops
    NOT,
    AND,
    OR,
    XOR,
    // relops
    LT,
    GT,
    LEQ,
    GEQ,
    EQ,
    NEQ,
    RET_VAL,
    RET,
}

/// Whether `op` may be applied to operands of type `tname`: arithmetic
/// and comparison to numbers, logic to numbers and Booleans, the rest to any type.
pub open spec fn valid_binop_for(op: Op, tname: Seq<char>) -> bool {
    match op {
        Op::ADD | Op::MULT | Op::SUB | Op::DIV | Op::LT | Op::GT | Op::LEQ | Op::GEQ => is_numeric_name(tname),
        Op::NOT | Op::AND | Op::OR | Op::XOR => is_numeric_name(tname) || is_bool_name(tname),
        _ => true,
    }
}

fn valid_binop_and_type(op: &Op, tname: &str) -> (r: bool)
    ensures
        r == valid_binop_for(*op, tname@),
{
    match op {
        // arith ops most restrictive operations. Can only be performed on numbers
        Op::ADD | Op::MULT | Op::SUB | Op::DIV | Op::LT | Op::GT | Op::LEQ | Op::GEQ => {
            is_numeric_type(tname)
        },
        // logic ops less restictive, but can only be done on numbers and bools
        Op::NOT | Op::AND | Op::OR | Op::XOR => {
            is_numeric_type(tname) || is_bool_type(tname)
        },
        // Other things such as EQ and NEQ can be performed on any types.
        _ => true,
    }
}

/// One instruction: `v<id> = <op> <arg1>, <arg2>`.
#[derive(Clone, Copy, Debug, Eq, PartialEq)]
pub struct Value {
    pub id: u64,
    pub op: Op,
    pub arg1: Option<ValueType>,
    pub arg2: Option<ValueType>,
}

/// The code that computes an expression, the number of its result and its type.
pub struct ExprInfo {
    // id of the final value of the expression
    pub id: u64,
    // ssa to calculate the expr
    pub code: Vec<Value>,
    // Type of the expr for semantic analysis
    pub var_type: VariableType,
}

pub struct SpecExprInfo {
    pub id: u64,
    pub code: Seq<Value>,
    pub var_type: SpecVariableType,
}

impl View for ExprInfo {
    type V = SpecExprInfo;

    open spec fn view(&self) -> SpecExprInfo {
        SpecExprInfo { id: self.id, code: self.code@, var_type: self.var_type@ }
    }
}

/// The code of a function.
pub struct Fn {
    name: String,
    code: Vec<Value>,
}

pub struct SpecFn {
    pub name: Seq<char>,
    pub code: Seq<Value>,
}

impl View for Fn {
    type V = SpecFn;

    closed spec fn view(&self) -> SpecFn {
        SpecFn { name: self.name@, code: self.code@ }
    }
}

impl Fn {
    pub fn new(name: &str) -> (f: Self)
        ensures
            f@.name == name@,
            f@.code == Seq::<Value>::empty(),
    {
        Fn { name: name.to_owned(), code: Vec::new() }
    }

    /// Appends one instruction.
    pub fn add_value(&mut self, val: Value)
        ensures
            final(self)@.name == old(self)@.name,
            final(self)@.code == old(self)@.code.push(val),
    {
        self.code.push(val);
    }

    /// Moves all instructions of `code` to the end of this function's code.
    pub fn add_code(&mut self, code: &mut Vec<Value>)
        ensures
            final(self)@.name == old(self)@.name,
            final(self)@.code == old(self)@.code + old(code)@,
            final(code)@ == Seq::<Value>::empty(),
    {
        self.code.append(code);
    }

    /// A copy of this function.
    pub fn duplicate(&self) -> (f: Self)
        ensures
            f@ == self@,
    {
        let mut code: Vec<Value> = Vec::new();
        let mut i: usize = 0;
        while i < self.code.len()
            invariant
                i <= self.code@.len(),
                code@ == self.code@.subrange(0, i as int),
            decreases self.code@.len() - i,
        {
            code.push(self.code[i]);
            i = i + 1;
            assert(code@ =~= self.code@.subrange(0, i as int));
        }
        assert(code@ =~= self.code@);
        Fn { name: self.name.clone(), code }
    }
}


// ---------------------------------------------------------------------------
// The generator's state and what each step of generation does to it

/// Why no code can be generated.
pub enum SpecIrError {
    UnknownIdentifier(Seq<char>),
    InvalidExpression,
    InvalidPrefixOperator(SpecToken),
    TypeMismatch(SpecToken),
    UndefinedVariable(Seq<char>),
    AssignmentWithoutValue,
    AssignToNonVariable,
    InvalidBinaryOperator(SpecToken),
    LeftOperandType,
    RightOperandType,
    UnknownType(Seq<char>),
    Redefinition(Seq<char>),
    UnsupportedStatement,
    NotAProgram,
    IdsExhausted,
}

/// The generated functions, the scopes from outermost to innermost, and the last number issued.
pub struct SpecIrState {
    pub fns: Seq<SpecFn>,
    pub scopes: Seq<Map<Seq<char>, SpecSymbol>>,
    pub next_id: u64,
}

pub type IrResult<T> = Result<(T, SpecIrState), SpecIrError>;

pub open spec fn with_next_id(st: SpecIrState, id: u64) -> SpecIrState {
    SpecIrState { fns: st.fns, scopes: st.scopes, next_id: id }
}

pub open spec fn with_scopes(st: SpecIrState, scopes: Seq<Map<Seq<char>, SpecSymbol>>) -> SpecIrState {
    SpecIrState { fns: st.fns, scopes, next_id: st.next_id }
}

/// A plain type named `ident`.
pub open spec fn plain_type(ident: Seq<char>) -> SpecVariableType {
    SpecVariableType { ident, pointer: false, array: false, array_size: 0 }
}

/// The variable that `name` stands for in the innermost scope where it stands for one.
pub open spec fn lookup_var(scopes: Seq<Map<Seq<char>, SpecSymbol>>, name: Seq<char>) -> Option<SpecVariableInfo>
    decreases scopes.len(),
{
    if scopes.len() == 0 {
        None
    } else {
        match scopes.last().get(name) {
            Some(SpecSymbol::Variable(v)) => Some(v),
            _ => lookup_var(scopes.drop_last(), name),
        }
    }
}

/// The size of the type that `name` stands for in the innermost scope where it stands for one.
pub open spec fn lookup_type(scopes: Seq<Map<Seq<char>, SpecSymbol>>, name: Seq<char>) -> Option<u64>
    decreases scopes.len(),
{
    if scopes.len() == 0 {
        None
    } else {
        match scopes.last().get(name) {
            Some(SpecSymbol::Type(size)) => Some(size),
            _ => lookup_type(scopes.drop_last(), name),
        }
    }
}

/// Redefines `name` in the innermost scope where it stands for a variable; no change when there is none.
pub open spec fn update_var(
    scopes: Seq<Map<Seq<char>, SpecSymbol>>,
    name: Seq<char>,
    info: SpecVariableInfo,
) -> Seq<Map<Seq<char>, SpecSymbol>>
    decreases scopes.len(),
{
    if scopes.len() == 0 {
        scopes
    } else {
        match scopes.last().get(name) {
            Some(SpecSymbol::Variable(_)) => scopes.drop_last().push(scopes.last().insert(name, SpecSymbol::Variable(info))),
            _ => update_var(scopes.drop_last(), name, info).push(scopes.last()),
        }
    }
}

/// A fresh number and the state that has issued it.
pub open spec fn fresh(st: SpecIrState) -> IrResult<u64> {
    if st.next_id < u64::MAX {
        Ok(((st.next_id + 1) as u64, with_next_id(st, (st.next_id + 1) as u64)))
    } else {
        Err(SpecIrError::IdsExhausted)
    }
}

/// The operation of a binary operator token.
pub open spec fn binop_of(t: SpecToken) -> Option<Op> {
    match t {
        SpecToken::PLUS => Some(Op::ADD),
        SpecToken::ASTERISK => Some(Op::MULT),
        SpecToken::DASH => Some(Op::SUB),
        SpecToken::SLASH => Some(Op::DIV),
        SpecToken::LT => Some(Op::LT),
        SpecToken::GT => Some(Op::GT),
        SpecToken::LEQ => Some(Op::LEQ),
        SpecToken::GEQ => Some(Op::GEQ),
        SpecToken::EQ => Some(Op::EQ),
        SpecToken::NEQ => Some(Op::NEQ),
        _ => None,
    }
}

/// The type of a binary operation's result: arithmetic keeps the left operand's type,
/// comparisons give `bool`.
pub open spec fn binop_result_type(op: Op, left: SpecVariableType) -> SpecVariableType {
    match op {
        Op::ADD | Op::MULT | Op::SUB | Op::DIV => left,
        _ => plain_type("bool"@),
    }
}

/// The code for an expression.
pub open spec fn gen_expr(st: SpecIrState, e: SpecExpression) -> IrResult<SpecExprInfo>
    decreases e, 1int,
{
    match e {
        SpecExpression::Identifier(name) => match lookup_var(st.scopes, name) {
            Some(vi) => Ok((SpecExprInfo { id: vi.id, code: seq![], var_type: vi.var_type }, st)),
            None => Err(SpecIrError::UnknownIdentifier(name)),
        },
        SpecExpression::Number(n) => match fresh(st) {
            Ok((id, st1)) => Ok((
                SpecExprInfo {
                    id,
                    code: seq![Value { id, op: Op::CONST, arg1: Some(ValueType::CONST(n)), arg2: None }],
                    var_type: plain_type("u64"@),
                },
                st1,
            )),
            Err(err) => Err(err),
        },
        SpecExpression::Prefix(_, _) => gen_prefix(st, e),
        SpecExpression::Infix(_, _, _) => gen_infix(st, e),
        _ => Err(SpecIrError::InvalidExpression),
    }
}

/// The code for a prefix expression: negation only.
pub open spec fn gen_prefix(st: SpecIrState, e: SpecExpression) -> IrResult<SpecExprInfo>
    decreases e, 0int,
{
    match e {
        SpecExpression::Prefix(op, operand) => if op == SpecToken::DASH {
            match gen_expr(st, *operand) {
                Ok((info, st1)) => match fresh(st1) {
                    Ok((id, st2)) => Ok((
                        SpecExprInfo {
                            id,
                            code: info.code.push(Value { id, op: Op::NEG, arg1: Some(ValueType::ID(info.id)), arg2: None }),
                            var_type: info.var_type,
                        },
                        st2,
                    )),
                    Err(err) => Err(err),
                },
                Err(err) => Err(err),
            }
        } else {
            Err(SpecIrError::InvalidPrefixOperator(op))
        },
        _ => Err(SpecIrError::InvalidExpression),
    }
}

/// The code for an infix expression: an assignment to a variable or a binary operation.
pub open spec fn gen_infix(st: SpecIrState, e: SpecExpression) -> IrResult<SpecExprInfo>
    decreases e, 0int,
{
    match e {
        SpecExpression::Infix(op, l, r) => match gen_expr(st, *l) {
            Err(err) => Err(err),
            Ok((li, st1)) => match gen_expr(st1, *r) {
                Err(err) => Err(err),
                Ok((ri, st2)) => if li.var_type.ident != ri.var_type.ident {
                    Err(SpecIrError::TypeMismatch(op))
                } else if op == SpecToken::ASSIGN {
                    match *l {
                        SpecExpression::Identifier(ident) => match lookup_var(st2.scopes, ident) {
                            None => Err(SpecIrError::UndefinedVariable(ident)),
                            Some(vi) => if ri.code.len() == 0 {
                                Err(SpecIrError::AssignmentWithoutValue)
                            } else {
                                let id = ri.code.last().id;
                                Ok((
                                    SpecExprInfo { id, code: ri.code, var_type: li.var_type },
                                    with_scopes(
                                        st2,
                                        update_var(st2.scopes, ident, SpecVariableInfo { id, var_type: vi.var_type }),
                                    ),
                                ))
                            },
                        },
                        _ => Err(SpecIrError::AssignToNonVariable),
                    }
                } else {
                    match binop_of(op) {
                        None => Err(SpecIrError::InvalidBinaryOperator(op)),
                        Some(o) => if !valid_binop_for(o, li.var_type.ident) {
                            Err(SpecIrError::LeftOperandType)
                        } else if !valid_binop_for(o, ri.var_type.ident) {
                            Err(SpecIrError::RightOperandType)
                        } else {
                            match fresh(st2) {
                                Ok((id, st3)) => Ok((
                                    SpecExprInfo {
                                        id,
                                        code: li.code + ri.code + seq![
                                            Value { id, op: o, arg1: Some(ValueType::ID(li.id)), arg2: Some(ValueType::ID(ri.id)) },
                                        ],
                                        var_type: binop_result_type(o, li.var_type),
                                    },
                                    st3,
                                )),
                                Err(err) => Err(err),
                            }
                        },
                    }
                },
            },
        },
        _ => Err(SpecIrError::InvalidExpression),
    }
}

/// The code for a variable declaration, which defines the variable in the innermost scope.
pub open spec fn gen_var_decl(st: SpecIrState, var: SpecVariable) -> IrResult<Seq<Value>> {
    let first = match var.value {
        Some(e) => gen_expr(st, e),
        None => match fresh(st) {
            Ok((id, st1)) => Ok((
                SpecExprInfo {
                    id,
                    code: seq![Value { id, op: Op::CONST, arg1: Some(ValueType::CONST(0)), arg2: None }],
                    var_type: var.var_type,
                },
                st1,
            )),
            Err(err) => Err(err),
        },
    };
    match first {
        Err(err) => Err(err),
        Ok((info, st1)) => if lookup_type(st1.scopes, var.var_type.ident) is None {
            Err(SpecIrError::UnknownType(var.var_type.ident))
        } else if st1.scopes.last().get(var.name) matches Some(SpecSymbol::Variable(_)) {
            Err(SpecIrError::Redefinition(var.name))
        } else {
            let scope = st1.scopes.last().insert(
                var.name,
                SpecSymbol::Variable(SpecVariableInfo { id: info.id, var_type: var.var_type }),
            );
            Ok((info.code, with_scopes(st1, st1.scopes.update(st1.scopes.len() - 1, scope))))
        },
    }
}

/// The code for a return statement: the value, `RET_VAL` of it, and `RET`.
pub open spec fn gen_ret_stmt(st: SpecIrState, e: SpecExpression) -> IrResult<Seq<Value>> {
    match gen_expr(st, e) {
        Err(err) => Err(err),
        Ok((info, st1)) => match fresh(st1) {
            Err(err) => Err(err),
            Ok((id1, st2)) => match fresh(st2) {
                Err(err) => Err(err),
                Ok((id2, st3)) => Ok((
                    info.code.push(Value { id: id1, op: Op::RET_VAL, arg1: Some(ValueType::ID(info.id)), arg2: None })
                        .push(Value { id: id2, op: Op::RET, arg1: None, arg2: None }),
                    st3,
                )),
            },
        },
    }
}

/// The code for a statement; loops and conditionals have none.
pub open spec fn gen_stmt(st: SpecIrState, s: SpecStatement) -> IrResult<Seq<Value>> {
    match s {
        SpecStatement::VariableDeclaration(var) => gen_var_decl(st, var),
        SpecStatement::ExpressionStatement(e) => match gen_expr(st, e) {
            Ok((info, st1)) => Ok((info.code, st1)),
            Err(err) => Err(err),
        },
        SpecStatement::ReturnStatement(e) => gen_ret_stmt(st, e),
        _ => Err(SpecIrError::UnsupportedStatement),
    }
}

/// The code for the statements from index `i` on, appended to `code`.
pub open spec fn gen_stmts(st: SpecIrState, stmts: Seq<SpecStatement>, i: int, code: Seq<Value>) -> IrResult<Seq<Value>>
    decreases stmts.len() - i,
{
    if i < 0 || i >= stmts.len() {
        Ok((code, st))
    } else {
        match gen_stmt(st, stmts[i]) {
            Ok((c, st1)) => gen_stmts(st1, stmts, i + 1, code + c),
            Err(err) => Err(err),
        }
    }
}

/// The function generated for a function declaration, in a scope of its own; none for a
/// variable declaration.
pub open spec fn gen_decl(st: SpecIrState, d: SpecDeclaration) -> IrResult<Option<SpecFn>> {
    match d {
        SpecDeclaration::FunctionDeclaration(f) => {
            let st1 = with_scopes(st, st.scopes.push(Map::empty()));
            match gen_stmts(st1, f.stmts, 0, seq![]) {
                Ok((code, st2)) => Ok((Some(SpecFn { name: f.name, code }), with_scopes(st2, st2.scopes.drop_last()))),
                Err(err) => Err(err),
            }
        },
        _ => Ok((None, st)),
    }
}

/// The functions generated for the declarations from index `i` on, appended to the state's.
pub open spec fn gen_decls(st: SpecIrState, decls: Seq<SpecDeclaration>, i: int) -> IrResult<()>
    decreases decls.len() - i,
{
    if i < 0 || i >= decls.len() {
        Ok(((), st))
    } else {
        match gen_decl(st, decls[i]) {
            Ok((Some(f), st1)) => gen_decls(
                SpecIrState { fns: st1.fns.push(f), scopes: st1.scopes, next_id: st1.next_id },
                decls,
                i + 1,
            ),
            Ok((None, st1)) => gen_decls(st1, decls, i + 1),
            Err(err) => Err(err),
        }
    }
}

/// The outermost scope with the built-in types from index `i` on defined.
pub open spec fn with_builtins(m: Map<Seq<char>, SpecSymbol>, i: int) -> Map<Seq<char>, SpecSymbol>
    decreases 10 - i,
{
    if i < 0 || i >= 10 {
        m
    } else {
        with_builtins(
            m.insert(builtin_name(all_builtins()[i]), SpecSymbol::Type(builtin_size(all_builtins()[i]))),
            i + 1,
        )
    }
}

/// The code for a whole program: a new outermost scope is opened, the built-in types are
/// defined in the first scope, and each function declaration gives a function.
pub open spec fn gen_ssa(st: SpecIrState, node: SpecNode) -> IrResult<Seq<SpecFn>> {
    let scopes = st.scopes.push(Map::empty());
    let st1 = with_scopes(st, scopes.update(0, with_builtins(scopes[0], 0)));
    match node {
        SpecNode::Program(decls) => match gen_decls(st1, decls, 0) {
            Ok((_, st2)) => Ok((st2.fns, st2)),
            Err(err) => Err(err),
        },
        _ => Err(SpecIrError::NotAProgram),
    }
}


pub proof fn lemma_update_var_len(scopes: Seq<Map<Seq<char>, SpecSymbol>>, name: Seq<char>, info: SpecVariableInfo)
    ensures
        update_var(scopes, name, info).len() == scopes.len(),
    decreases scopes.len(),
{
    if scopes.len() > 0 {
        lemma_update_var_len(scopes.drop_last(), name, info);
    }
}

/// Read after write across scopes: `update_var` (what `update_variable` does) keeps the number of
/// scopes; where `name` stood for a variable, a variable lookup of `name` then finds `info`, and
/// where it stood for none, nothing changes; variable lookups of every other name, and type
/// lookups of every name, find what they found before.
pub proof fn law_update_then_lookup(
    scopes: Seq<Map<Seq<char>, SpecSymbol>>,
    name: Seq<char>,
    info: SpecVariableInfo,
    other: Seq<char>,
)
    ensures
        update_var(scopes, name, info).len() == scopes.len(),
        lookup_var(scopes, name) is Some ==> lookup_var(update_var(scopes, name, info), name) == Some(info),
        lookup_var(scopes, name) is None ==> update_var(scopes, name, info) == scopes,
        other != name ==> lookup_var(update_var(scopes, name, info), other) == lookup_var(scopes, other),
        lookup_type(update_var(scopes, name, info), other) == lookup_type(scopes, other),
    decreases scopes.len(),
{
    lemma_update_var_len(scopes, name, info);
    if scopes.len() > 0 {
        let init = scopes.drop_last();
        let last = scopes.last();
        let u = update_var(scopes, name, info);
        law_update_then_lookup(init, name, info, other);
        match last.get(name) {
            Some(SpecSymbol::Variable(_)) => {
                assert(u.drop_last() =~= init);
                assert(u.last() == last.insert(name, SpecSymbol::Variable(info)));
            },
            _ => {
                assert(u.drop_last() =~= update_var(init, name, info));
                assert(u.last() == last);
                if lookup_var(scopes, name) is None {
                    assert(u =~= scopes);
                }
            },
        }
    }
}

/// Generating an expression keeps the number of scopes.
pub proof fn lemma_gen_expr_scopes(st: SpecIrState, e: SpecExpression)
    ensures
        gen_expr(st, e) matches Ok((_, st1)) ==> st1.scopes.len() == st.scopes.len() && st1.fns == st.fns,
    decreases e, 1int,
{
    match e {
        SpecExpression::Prefix(_, _) => lemma_gen_prefix_scopes(st, e),
        SpecExpression::Infix(_, _, _) => lemma_gen_infix_scopes(st, e),
        _ => {},
    }
}

pub proof fn lemma_gen_prefix_scopes(st: SpecIrState, e: SpecExpression)
    ensures
        gen_prefix(st, e) matches Ok((_, st1)) ==> st1.scopes.len() == st.scopes.len() && st1.fns == st.fns,
    decreases e, 0int,
{
    if let SpecExpression::Prefix(op, operand) = e {
        lemma_gen_expr_scopes(st, *operand);
    }
}

pub proof fn lemma_gen_infix_scopes(st: SpecIrState, e: SpecExpression)
    ensures
        gen_infix(st, e) matches Ok((_, st1)) ==> st1.scopes.len() == st.scopes.len() && st1.fns == st.fns,
    decreases e, 0int,
{
    if let SpecExpression::Infix(op, l, r) = e {
        lemma_gen_expr_scopes(st, *l);
        if let Ok((li, st1)) = gen_expr(st, *l) {
            lemma_gen_expr_scopes(st1, *r);
            if let Ok((ri, st2)) = gen_expr(st1, *r) {
                if let SpecExpression::Identifier(ident) = *l {
                    if let Some(vi) = lookup_var(st2.scopes, ident) {
                        if ri.code.len() > 0 {
                            lemma_update_var_len(st2.scopes, ident, SpecVariableInfo { id: ri.code.last().id, var_type: vi.var_type });
                        }
                    }
                }
            }
        }
    }
}

/// Generating a statement keeps the number of scopes.
pub proof fn lemma_gen_stmt_scopes(st: SpecIrState, s: SpecStatement)
    ensures
        gen_stmt(st, s) matches Ok((_, st1)) ==> st1.scopes.len() == st.scopes.len() && st1.fns == st.fns,
{
    match s {
        SpecStatement::VariableDeclaration(var) => {
            if let Some(e) = var.value {
                lemma_gen_expr_scopes(st, e);
            }
        },
        SpecStatement::ExpressionStatement(e) => lemma_gen_expr_scopes(st, e),
        SpecStatement::ReturnStatement(e) => lemma_gen_expr_scopes(st, e),
        _ => {},
    }
}

// ---------------------------------------------------------------------------
// The generator

/// Why no code can be generated.
pub enum IrError {
    UnknownIdentifier(String),
    InvalidExpression,
    InvalidPrefixOperator(Token),
    TypeMismatch(Token),
    UndefinedVariable(String),
    AssignmentWithoutValue,
    AssignToNonVariable,
    InvalidBinaryOperator(Token),
    LeftOperandType,
    RightOperandType,
    UnknownType(String),
    Redefinition(String),
    UnsupportedStatement,
    NotAProgram,
    IdsExhausted,
}

impl View for IrError {
    type V = SpecIrError;

    open spec fn view(&self) -> SpecIrError {
        match self {
            IrError::UnknownIdentifier(n) => SpecIrError::UnknownIdentifier(n@),
            IrError::InvalidExpression => SpecIrError::InvalidExpression,
            IrError::InvalidPrefixOperator(t) => SpecIrError::InvalidPrefixOperator(t@),
            IrError::TypeMismatch(t) => SpecIrError::TypeMismatch(t@),
            IrError::UndefinedVariable(n) => SpecIrError::UndefinedVariable(n@),
            IrError::AssignmentWithoutValue => SpecIrError::AssignmentWithoutValue,
            IrError::AssignToNonVariable => SpecIrError::AssignToNonVariable,
            IrError::InvalidBinaryOperator(t) => SpecIrError::InvalidBinaryOperator(t@),
            IrError::LeftOperandType => SpecIrError::LeftOperandType,
            IrError::RightOperandType => SpecIrError::RightOperandType,
            IrError::UnknownType(n) => SpecIrError::UnknownType(n@),
            IrError::Redefinition(n) => SpecIrError::Redefinition(n@),
            IrError::UnsupportedStatement => SpecIrError::UnsupportedStatement,
            IrError::NotAProgram => SpecIrError::NotAProgram,
            IrError::IdsExhausted => SpecIrError::IdsExhausted,
        }
    }
}

/// The state of code generation: the functions generated so far, the scopes, and the
/// numbering of instructions.
pub struct IR {
    fns: Vec<Fn>,
    scopes: Vec<SymbolTable>,
    id_store: IdStore,
}

pub open spec fn fns_view(fns: Seq<Fn>) -> Seq<SpecFn> {
    fns.map_values(|f: Fn| f@)
}

pub open spec fn scopes_view(scopes: Seq<SymbolTable>) -> Seq<Map<Seq<char>, SpecSymbol>> {
    scopes.map_values(|t: SymbolTable| t.map())
}

impl View for IR {
    type V = SpecIrState;

    closed spec fn view(&self) -> SpecIrState {
        SpecIrState {
            fns: fns_view(self.fns@),
            scopes: scopes_view(self.scopes@),
            next_id: self.id_store.next_id,
        }
    }
}

impl IR {
    /// No functions, no scopes, no numbers issued.
    pub fn new() -> (ir: Self)
        ensures
            ir@ == (SpecIrState { fns: Seq::empty(), scopes: Seq::empty(), next_id: 0 }),
    {
        let ir = Self { fns: Vec::new(), scopes: Vec::new(), id_store: IdStore::new() };
        assert(fns_view(ir.fns@) =~= Seq::empty());
        assert(scopes_view(ir.scopes@) =~= Seq::empty());
        ir
    }

    fn global_scope(&mut self) -> (scope: &mut SymbolTable)
        requires
            old(self).scopes@.len() > 0,
        ensures
            *scope == old(self).scopes@[0],
            final(self).scopes@ == old(self).scopes@.update(0, *final(scope)),
            final(self).fns == old(self).fns,
            final(self).id_store == old(self).id_store,
    {
        &mut self.scopes[0]
    }

    fn current_scope(&mut self) -> (scope: &mut SymbolTable)
        requires
            old(self).scopes@.len() > 0,
        ensures
            *scope == old(self).scopes@.last(),
            final(self).scopes@ == old(self).scopes@.update(old(self).scopes@.len() - 1, *final(scope)),
            final(self).fns == old(self).fns,
            final(self).id_store == old(self).id_store,
    {
        let n = self.scopes.len();
        &mut self.scopes[n - 1]
    }

    fn add_builtins(&mut self)
        requires
            old(self).scopes@.len() > 0,
        ensures
            final(self)@ == with_scopes(
                old(self)@,
                old(self)@.scopes.update(0, with_builtins(old(self)@.scopes[0], 0)),
            ),
    {
        let all: Vec<BuiltInTypes> = vec![
            BuiltInTypes::u8,
            BuiltInTypes::u16,
            BuiltInTypes::u32,
            BuiltInTypes::u64,
            BuiltInTypes::i8,
            BuiltInTypes::i16,
            BuiltInTypes::i32,
            BuiltInTypes::i64,
            BuiltInTypes::char,
            BuiltInTypes::bool,
        ];
        assert(all@ =~= all_builtins());
        let ghost st0 = self@;
        let mut i: usize = 0;
        while i < all.len()
            invariant
                all@ == all_builtins(),
                i <= 10,
                self.scopes@.len() == st0.scopes.len(),
                st0.scopes.len() > 0,
                self.fns == old(self).fns,
                self.id_store == old(self).id_store,
                st0 == old(self)@,
                forall|j: int| 0 < j < self.scopes@.len() ==> #[trigger] self.scopes@[j] == old(self).scopes@[j],
                with_builtins(st0.scopes[0], 0) == with_builtins(self.scopes@[0].map(), i as int),
            decreases 10 - i,
        {
            let builtin_type = all[i];
            let name = builtin_type_name(builtin_type);
            self.global_scope().define_type(
                name.as_str(),
                TypeInfo { size: builtin_type_size(builtin_type) },
            );
            i = i + 1;
        }
        assert(with_builtins(self.scopes@[0].map(), 10) == self.scopes@[0].map());
        assert(scopes_view(self.scopes@) =~= st0.scopes.update(0, with_builtins(st0.scopes[0], 0)));
    }

    fn get_type_all_scopes(&self, ident: &str) -> (r: Option<&TypeInfo>)
        ensures
            match lookup_type(self@.scopes, ident@) {
                Some(size) => r matches Some(t) && t.size == size,
                None => r is None,
            },
    {
        let ghost all = self@.scopes;
        let mut i = self.scopes.len();
        assert(all.subrange(0, i as int) =~= all);
        while i > 0
            invariant
                i <= self.scopes@.len(),
                all == self@.scopes,
                lookup_type(all, ident@) == lookup_type(all.subrange(0, i as int), ident@),
            decreases i,
        {
            assert(all.subrange(0, i as int).drop_last() =~= all.subrange(0, i - 1));
            if let Some(type_info) = self.scopes[i - 1].get_type(ident) {
                return Some(type_info);
            }
            i = i - 1;
        }
        None
    }

    fn get_var_all_scopes(&self, ident: &str) -> (r: Option<&VariableInfo>)
        ensures
            match lookup_var(self@.scopes, ident@) {
                Some(v) => r matches Some(x) && x@ == v,
                None => r is None,
            },
    {
        let ghost all = self@.scopes;
        let mut i = self.scopes.len();
        assert(all.subrange(0, i as int) =~= all);
        while i > 0
            invariant
                i <= self.scopes@.len(),
                all == self@.scopes,
                lookup_var(all, ident@) == lookup_var(all.subrange(0, i as int), ident@),
            decreases i,
        {
            assert(all.subrange(0, i as int).drop_last() =~= all.subrange(0, i - 1));
            if let Some(var_info) = self.scopes[i - 1].get_variable(ident) {
                return Some(var_info);
            }
            i = i - 1;
        }
        None
    }

    /// Redefines `ident` in the innermost scope where it stands for a variable; nothing
    /// changes when it stands for a variable in no scope.
    pub fn update_variable(&mut self, ident: &str, var_info: VariableInfo)
        ensures
            final(self)@ == with_scopes(old(self)@, update_var(old(self)@.scopes, ident@, var_info@)),
    {
        let ghost all = self@.scopes;
        let mut i = self.scopes.len();
        assert(all.subrange(0, i as int) =~= all);
        assert(all.subrange(i as int, all.len() as int) =~= Seq::<Map<Seq<char>, SpecSymbol>>::empty());
        while i > 0 && self.scopes[i - 1].get_variable(ident).is_none()
            invariant
                i <= self.scopes@.len(),
                all == self@.scopes,
                *self == *old(self),
                update_var(all, ident@, var_info@) == update_var(all.subrange(0, i as int), ident@, var_info@)
                    + all.subrange(i as int, all.len() as int),
            decreases i,
        {
            assert(all.subrange(0, i as int).drop_last() =~= all.subrange(0, i - 1));
            assert(all.subrange(i - 1, all.len() as int) =~= seq![all[i - 1]] + all.subrange(i as int, all.len() as int));
            i = i - 1;
        }
        if i > 0 {
            assert(all.subrange(0, i as int).drop_last() =~= all.subrange(0, i - 1));
            self.scopes[i - 1].define_variable(ident, var_info);
        }
        assert(scopes_view(self.scopes@) =~= update_var(all, ident@, var_info@));
    }

    fn fresh_id(&mut self) -> (r: Result<u64, IrError>)
        ensures
            match fresh(old(self)@) {
                Ok((id, st)) => r matches Ok(x) && x == id && final(self)@ == st,
                Err(err) => r matches Err(x) && x@ == err,
            },
    {
        if self.id_store.next_id == u64::MAX {
            return Err(IrError::IdsExhausted);
        }
        let id = self.id_store.next();
        assert(self@ =~= with_next_id(old(self)@, id));
        Ok(id)
    }

    /// The code for an expression, as `gen_expr` states. The generator refuses, with the error
    /// named in brackets, an identifier that stands for no variable in any scope
    /// [`UnknownIdentifier`], and a Boolean literal or a call [`InvalidExpression`]; these are
    /// the inputs on which no code can be generated.
    fn gen_expr(&mut self, expr: &Expression) -> (r: Result<ExprInfo, IrError>)
        ensures
            match gen_expr(old(self)@, expr@) {
                Ok((info, st)) => r matches Ok(x) && x@ == info && final(self)@ == st,
                Err(err) => r matches Err(x) && x@ == err,
            },
        decreases expr, 1int,
    {
        match expr {
            Expression::Identifier(ident) => {
                match self.get_var_all_scopes(ident.as_str()) {
                    Some(var_info) => {
                        let code: Vec<Value> = Vec::new();
                        assert(code@ =~= Seq::<Value>::empty());
                        Ok(ExprInfo { id: var_info.id, code, var_type: var_info.var_type.clone() })
                    },
                    None => Err(IrError::UnknownIdentifier(ident.clone())),
                }
            },
            Expression::Number(n) => {
                let id = match self.fresh_id() {
                    Ok(id) => id,
                    Err(e) => { return Err(e); },
                };
                let val = Value { id, op: Op::CONST, arg1: Some(ValueType::CONST(*n)), arg2: None };
                let code = vec![val];
                assert(code@ =~= seq![val]);
                let var_type = VariableType { ident: lit("u64"), pointer: false, array: false, array_size: 0 };
                Ok(ExprInfo { id, code, var_type })
            },
            Expression::Prefix(prefix) => self.gen_prefix_expr(prefix),
            Expression::Infix(infix) => self.gen_infix_expr(infix),
            _ => Err(IrError::InvalidExpression),
        }
    }

    /// The code for a prefix expression. Only negation has an instruction; any other prefix
    /// operator is refused with `InvalidPrefixOperator`.
    fn gen_prefix_expr(&mut self, prefix: &PrefixExpression) -> (r: Result<ExprInfo, IrError>)
        ensures
            match gen_prefix(old(self)@, expr_view(Expression::Prefix(*prefix))) {
                Ok((info, st)) => r matches Ok(x) && x@ == info && final(self)@ == st,
                Err(err) => r matches Err(x) && x@ == err,
            },
        decreases prefix, 0int,
    {
        match prefix.op {
            Token::DASH => {
                let mut expr_info = match self.gen_expr(&prefix.operand) {
                    Ok(info) => info,
                    Err(e) => { return Err(e); },
                };
                let id = match self.fresh_id() {
                    Ok(id) => id,
                    Err(e) => { return Err(e); },
                };
                let val = Value { id, op: Op::NEG, arg1: Some(ValueType::ID(expr_info.id)), arg2: None };
                expr_info.code.push(val);
                Ok(ExprInfo { id, code: expr_info.code, var_type: expr_info.var_type })
            },
            _ => Err(IrError::InvalidPrefixOperator(prefix.op.clone())),
        }
    }

    /// The code for an infix expression. It is refused, with the error named in brackets, when
    /// the operands' types differ [`TypeMismatch`]; for an assignment, when the left side is no
    /// identifier [`AssignToNonVariable`], names no variable [`UndefinedVariable`], or the right
    /// side gives no instruction [`AssignmentWithoutValue`]; otherwise when the operator has no
    /// instruction [`InvalidBinaryOperator`] or an operand's type does not suit it
    /// [`LeftOperandType`, `RightOperandType`].
    fn gen_infix_expr(&mut self, infix: &InfixExpression) -> (r: Result<ExprInfo, IrError>)
        ensures
            match gen_infix(old(self)@, expr_view(Expression::Infix(*infix))) {
                Ok((info, st)) => r matches Ok(x) && x@ == info && final(self)@ == st,
                Err(err) => r matches Err(x) && x@ == err,
            },
        decreases infix, 0int,
    {
        let mut code: Vec<Value> = Vec::new();
        let mut expr_info_left = match self.gen_expr(&infix.left) {
            Ok(info) => info,
            Err(e) => { return Err(e); },
        };
        let mut expr_info_right = match self.gen_expr(&infix.right) {
            Ok(info) => info,
            Err(e) => { return Err(e); },
        };
        if !str_eq(expr_info_left.var_type.ident.as_str(), expr_info_right.var_type.ident.as_str()) {
            return Err(IrError::TypeMismatch(infix.op.clone()));
        }
        let op = match infix.op {
            Token::ASSIGN => {
                // assignment is handled different than all the other cases
                // check that an ident is on the left side
                // check that the types on both sides match
                match &*infix.left {
                    Expression::Identifier(ident) => {
                        // check that the variable is defined
                        let mut var_info = match self.get_var_all_scopes(ident.as_str()) {
                            Some(v) => v.clone(),
                            None => { return Err(IrError::UndefinedVariable(ident.clone())); },
                        };
                        code.append(&mut expr_info_right.code);
                        if code.len() == 0 {
                            return Err(IrError::AssignmentWithoutValue);
                        }

                        // update the variable in the symbol table
                        let id = code[code.len() - 1].id;
                        var_info.id = id;
                        self.update_variable(ident.as_str(), var_info);
                        return Ok(ExprInfo { id, code, var_type: expr_info_left.var_type });
                    },
                    _ => { return Err(IrError::AssignToNonVariable); },
                }
            },
            Token::PLUS => Op::ADD,
            Token::ASTERISK => Op::MULT,
            Token::DASH => Op::SUB,
            Token::SLASH => Op::DIV,
            Token::LT => Op::LT,
            Token::GT => Op::GT,
            Token::LEQ => Op::LEQ,
            Token::GEQ => Op::GEQ,
            Token::EQ => Op::EQ,
            Token::NEQ => Op::NEQ,
            _ => { return Err(IrError::InvalidBinaryOperator(infix.op.clone())); },
        };
        // ensure the types of each side of the binop are compatible with the op
        if !valid_binop_and_type(&op, expr_info_left.var_type.ident.as_str()) {
            return Err(IrError::LeftOperandType);
        }
        if !valid_binop_and_type(&op, expr_info_right.var_type.ident.as_str()) {
            return Err(IrError::RightOperandType);
        }
        // for numeric types the result takes the left operand's type
        let var_type = match op {
            Op::ADD | Op::MULT | Op::SUB | Op::DIV => expr_info_left.var_type,
            _ => VariableType { ident: lit("bool"), pointer: false, array: false, array_size: 0 },
        };

        let ghost left_code = expr_info_left.code@;
        let ghost right_code = expr_info_right.code@;
        code.append(&mut expr_info_left.code);
        code.append(&mut expr_info_right.code);
        assert(code@ =~= left_code + right_code);

        let id = match self.fresh_id() {
            Ok(id) => id,
            Err(e) => { return Err(e); },
        };
        let val = Value {
            id,
            op,
            arg1: Some(ValueType::ID(expr_info_left.id)),
            arg2: Some(ValueType::ID(expr_info_right.id)),
        };
        code.push(val);
        assert(code@ =~= left_code + right_code + seq![val]);
        Ok(ExprInfo { id, code, var_type })
    }

    /// The code for a variable declaration, which binds the name in the innermost scope (a
    /// variable of an outer scope may be shadowed). It is refused when the type names no type
    /// in any scope [`UnknownType`] or the innermost scope already holds a variable of that
    /// name [`Redefinition`].
    fn gen_var_decl(&mut self, var: &Variable) -> (r: Result<Vec<Value>, IrError>)
        requires
            old(self)@.scopes.len() > 0,
        ensures
            match gen_var_decl(old(self)@, var@) {
                Ok((code, st)) => r matches Ok(x) && x@ == code && final(self)@ == st,
                Err(err) => r matches Err(x) && x@ == err,
            },
    {
        let expr_info = match &var.value {
            // if we are declaring and assigning the variable to a value
            // calculate the value of the expression
            Some(expr) => {
                proof { lemma_gen_expr_scopes(self@, expr@); }
                match self.gen_expr(expr) {
                    Ok(info) => info,
                    Err(e) => { return Err(e); },
                }
            },
            // if this is just a declaration, assign the value of the
            // variable to 0.
            None => {
                let id = match self.fresh_id() {
                    Ok(id) => id,
                    Err(e) => { return Err(e); },
                };
                let val = Value { id, op: Op::CONST, arg1: Some(ValueType::CONST(0)), arg2: None };
                let code = vec![val];
                assert(code@ =~= seq![val]);
                ExprInfo { id, code, var_type: var.var_type.clone() }
            },
        };
        let ghost st1 = self@;
        // Check if the type we are declaring the variable as exists
        if self.get_type_all_scopes(var.var_type.ident.as_str()).is_none() {
            return Err(IrError::UnknownType(var.var_type.ident.clone()));
        }
        assert(self.scopes@.len() > 0);
        assert(self.scopes@.last().map() == st1.scopes.last());
        if self.current_scope().get_variable(var.name.as_str()).is_some() {
            return Err(IrError::Redefinition(var.name.clone()));
        }
        let ghost before = self.scopes@;
        self.current_scope().define_variable(
            var.name.as_str(),
            VariableInfo { id: expr_info.id, var_type: var.var_type.clone() },
        );
        proof {
            let scope = st1.scopes.last().insert(
                var@.name,
                SpecSymbol::Variable(SpecVariableInfo { id: expr_info.id, var_type: var@.var_type }),
            );
            assert(scopes_view(self.scopes@) =~= st1.scopes.update(st1.scopes.len() - 1, scope));
        }
        Ok(expr_info.code)
    }

    fn gen_ret_stmt(&mut self, expr: &Expression) -> (r: Result<Vec<Value>, IrError>)
        ensures
            match gen_ret_stmt(old(self)@, expr@) {
                Ok((code, st)) => r matches Ok(x) && x@ == code && final(self)@ == st,
                Err(err) => r matches Err(x) && x@ == err,
            },
    {
        let mut code: Vec<Value> = Vec::new();
        let mut expr_info = match self.gen_expr(expr) {
            Ok(info) => info,
            Err(e) => { return Err(e); },
        };
        let ghost info_code = expr_info.code@;
        code.append(&mut expr_info.code);
        let id1 = match self.fresh_id() {
            Ok(id) => id,
            Err(e) => { return Err(e); },
        };
        code.push(Value { id: id1, op: Op::RET_VAL, arg1: Some(ValueType::ID(expr_info.id)), arg2: None });
        let id2 = match self.fresh_id() {
            Ok(id) => id,
            Err(e) => { return Err(e); },
        };
        code.push(Value { id: id2, op: Op::RET, arg1: None, arg2: None });
        assert(code@ =~= info_code.push(
            Value { id: id1, op: Op::RET_VAL, arg1: Some(ValueType::ID(expr_info.id)), arg2: None },
        ).push(Value { id: id2, op: Op::RET, arg1: None, arg2: None }));

        Ok(code)
    }

    fn gen_stmt(&mut self, stmt: &Statement) -> (r: Result<Vec<Value>, IrError>)
        requires
            old(self)@.scopes.len() > 0,
        ensures
            match gen_stmt(old(self)@, stmt@) {
                Ok((code, st)) => r matches Ok(x) && x@ == code && final(self)@ == st,
                Err(err) => r matches Err(x) && x@ == err,
            },
    {
        match stmt {
            Statement::VariableDeclaration(var) => self.gen_var_decl(var),
            Statement::ExpressionStatement(expr) => match self.gen_expr(expr) {
                Ok(info) => Ok(info.code),
                Err(e) => Err(e),
            },
            Statement::ReturnStatement(expr) => self.gen_ret_stmt(expr),
            _ => Err(IrError::UnsupportedStatement),
        }
    }

    fn gen_decl(&mut self, decl: &Declaration) -> (r: Result<Option<Fn>, IrError>)
        ensures
            match gen_decl(old(self)@, decl@) {
                Ok((f, st)) => r matches Ok(x) && final(self)@ == st && match f {
                    Some(f) => x matches Some(g) && g@ == f,
                    None => x is None,
                },
                Err(err) => r matches Err(x) && x@ == err,
            },
    {
        match decl {
            Declaration::FunctionDeclaration(function) => {
                // Functions create a new block and therefore get a new symbol table
                let ghost st0 = self@;
                self.scopes.push(SymbolTable::new());
                let ghost st1 = with_scopes(st0, st0.scopes.push(Map::empty()));
                assert(scopes_view(self.scopes@) =~= st0.scopes.push(Map::empty()));
                let mut fnir = Fn::new(function.name.as_str());
                let ghost stmts = stmts_view(function.stmts@);
                proof { lemma_stmts_view_index(function.stmts@); }
                let mut i: usize = 0;
                assert(fnir@.code =~= Seq::<Value>::empty());
                while i < function.stmts.len()
                    invariant
                        i <= function.stmts@.len(),
                        stmts == stmts_view(function.stmts@),
                        stmts.len() == function.stmts@.len(),
                        forall|j: int| 0 <= j < function.stmts@.len() ==> #[trigger] stmts[j] == function.stmts@[j]@,
                        self@.scopes.len() == st0.scopes.len() + 1,
                        self@.fns == st0.fns,
                        fnir@.name == function.name@,
                        st0 == old(self)@,
                        gen_decl(st0, decl@) == match gen_stmts(st1, stmts, 0, seq![]) {
                            Ok((code, st2)) => Ok((Some(SpecFn { name: function.name@, code }), with_scopes(st2, st2.scopes.drop_last()))),
                            Err(err) => Err(err),
                        },
                        gen_stmts(st1, stmts, 0, seq![]) == gen_stmts(self@, stmts, i as int, fnir@.code),
                    decreases function.stmts@.len() - i,
                {
                    proof { lemma_gen_stmt_scopes(self@, stmts[i as int]); }
                    let mut code = match self.gen_stmt(&function.stmts[i]) {
                        Ok(code) => code,
                        Err(e) => { return Err(e); },
                    };
                    fnir.add_code(&mut code);
                    i = i + 1;
                }
                // end of the functions scope
                let ghost st2 = self@;
                let _ = self.scopes.pop();
                assert(scopes_view(self.scopes@) =~= st2.scopes.drop_last());
                Ok(Some(fnir))
            },
            _ => Ok(None),
        }
    }

    /// Generates the functions of a program after the built-in types are defined, or
    /// says why they cannot be generated.
    pub fn try_gen_ssa(&mut self, node: &Node) -> (r: Result<Vec<Fn>, IrError>)
        ensures
            match gen_ssa(old(self)@, node@) {
                Ok((fns, st)) => r matches Ok(x) && fns_view(x@) == fns && final(self)@ == st,
                Err(err) => r matches Err(x) && x@ == err,
            },
    {
        // Create the global symbol table
        let ghost st0 = self@;
        self.scopes.push(SymbolTable::new());
        assert(scopes_view(self.scopes@) =~= st0.scopes.push(Map::empty()));
        self.add_builtins();
        match node {
            Node::Program(decls) => {
                let ghost ds = decls_view(decls@);
                let ghost st1 = self@;
                let mut i: usize = 0;
                while i < decls.len()
                    invariant
                        i <= decls@.len(),
                        ds == decls_view(decls@),
                        st0 == old(self)@,
                        node@ == SpecNode::Program(ds),
                        gen_ssa(st0, node@) == match gen_decls(st1, ds, 0) {
                            Ok((_, st2)) => Ok((st2.fns, st2)),
                            Err(err) => Err(err),
                        },
                        gen_decls(st1, ds, 0) == gen_decls(self@, ds, i as int),
                    decreases decls@.len() - i,
                {
                    let result = match self.gen_decl(&decls[i]) {
                        Ok(result) => result,
                        Err(e) => { return Err(e); },
                    };
                    if let Some(fnir) = result {
                        let ghost before = self@;
                        self.fns.push(fnir);
                        assert(fns_view(self.fns@) =~= before.fns.push(fnir@));
                    }
                    i = i + 1;
                }
                Ok(self.clone_fns())
            },
            _ => Err(IrError::NotAProgram),
        }
    }

    /// Generates the functions of a program after the built-in types are defined.
    pub fn gen_ssa(&mut self, node: &Node) -> (fns: Vec<Fn>)
        requires
            gen_ssa(old(self)@, node@) is Ok,
        ensures
            gen_ssa(old(self)@, node@) == Ok::<(Seq<SpecFn>, SpecIrState), SpecIrError>((fns_view(fns@), final(self)@)),
    {
        match self.try_gen_ssa(node) {
            Ok(fns) => fns,
            Err(_) => Vec::new(),
        }
    }

    fn clone_fns(&self) -> (fns: Vec<Fn>)
        ensures
            fns_view(fns@) == fns_view(self.fns@),
    {
        let mut fns: Vec<Fn> = Vec::new();
        let mut i: usize = 0;
        while i < self.fns.len()
            invariant
                i <= self.fns@.len(),
                fns_view(fns@) == fns_view(self.fns@).subrange(0, i as int),
            decreases self.fns@.len() - i,
        {
            let ghost before = fns@;
            let ghost k = i as int;
            let f = self.fns[i].duplicate();
            fns.push(f);
            assert(fns@ == before.push(f));
            assert(fns_view(fns@) =~= fns_view(before).push(f@));
            i = i + 1;
            assert(fns_view(fns@) =~= fns_view(self.fns@).subrange(0, k + 1));
        }
        assert(fns_view(self.fns@).subrange(0, i as int) =~= fns_view(self.fns@));
        fns
    }
}


// ---------------------------------------------------------------------------
// Single assignment: every instruction has a number of its own, the numbers increase
// along the code, and an instruction's value arguments name earlier instructions.

/// A value argument names a number below `id`.
pub open spec fn arg_before(a: Option<ValueType>, id: u64) -> bool {
    match a {
        Some(ValueType::ID(x)) => x < id,
        _ => true,
    }
}

/// The numbers of `code` increase strictly and lie in `(lo, hi]`, and each instruction's
/// value arguments name smaller numbers.
pub open spec fn ssa_code(code: Seq<Value>, lo: int, hi: int) -> bool {
    &&& forall|i: int, j: int| 0 <= i < j < code.len() ==> (#[trigger] code[i]).id < (#[trigger] code[j]).id
    &&& forall|i: int| 0 <= i < code.len() ==> lo < (#[trigger] code[i]).id <= hi
    &&& forall|i: int| 0 <= i < code.len() ==> arg_before((#[trigger] code[i]).arg1, code[i].id)
        && arg_before(code[i].arg2, code[i].id)
}

/// The code of all functions, one after another.
pub open spec fn all_code(fns: Seq<SpecFn>) -> Seq<Value>
    decreases fns.len(),
{
    if fns.len() == 0 {
        Seq::empty()
    } else {
        all_code(fns.drop_last()) + fns.last().code
    }
}

/// Every variable in the scopes has a number of at most `n`.
pub open spec fn vars_below(scopes: Seq<Map<Seq<char>, SpecSymbol>>, n: int) -> bool {
    forall|i: int, k: Seq<char>| 0 <= i < scopes.len() && #[trigger] scopes[i].contains_key(k) ==> (
        scopes[i][k] matches SpecSymbol::Variable(v) ==> v.id <= n)
}

proof fn lemma_ssa_concat(a: Seq<Value>, b: Seq<Value>, lo: int, mid: int, hi: int)
    requires
        ssa_code(a, lo, mid),
        ssa_code(b, mid, hi),
        lo <= mid <= hi,
    ensures
        ssa_code(a + b, lo, hi),
{
    let c = a + b;
    assert forall|i: int, j: int| 0 <= i < j < c.len() implies (#[trigger] c[i]).id < (#[trigger] c[j]).id by {
        if j < a.len() {
            assert(c[i] == a[i] && c[j] == a[j]);
        } else if i < a.len() {
            assert(c[i] == a[i] && c[j] == b[j - a.len()]);
        } else {
            assert(c[i] == b[i - a.len()] && c[j] == b[j - a.len()]);
        }
    }
    assert forall|i: int| 0 <= i < c.len() implies lo < (#[trigger] c[i]).id <= hi by {
        if i < a.len() {
            assert(c[i] == a[i]);
        } else {
            assert(c[i] == b[i - a.len()]);
        }
    }
    assert forall|i: int| 0 <= i < c.len() implies arg_before((#[trigger] c[i]).arg1, c[i].id)
        && arg_before(c[i].arg2, c[i].id) by {
        if i < a.len() {
            assert(c[i] == a[i]);
        } else {
            assert(c[i] == b[i - a.len()]);
        }
    }
}

proof fn lemma_ssa_weaken(a: Seq<Value>, lo: int, hi: int, lo2: int, hi2: int)
    requires
        ssa_code(a, lo, hi),
        lo2 <= lo,
        hi <= hi2,
    ensures
        ssa_code(a, lo2, hi2),
{
    assert forall|i: int| 0 <= i < a.len() implies lo2 < (#[trigger] a[i]).id <= hi2 by {
        assert(lo < a[i].id <= hi);
    }
}

proof fn lemma_ssa_single(v: Value, lo: int, hi: int)
    requires
        lo < v.id <= hi,
        arg_before(v.arg1, v.id),
        arg_before(v.arg2, v.id),
    ensures
        ssa_code(seq![v], lo, hi),
{
}

proof fn lemma_lookup_var_below(scopes: Seq<Map<Seq<char>, SpecSymbol>>, k: Seq<char>, n: int)
    requires
        vars_below(scopes, n),
    ensures
        lookup_var(scopes, k) matches Some(v) ==> v.id <= n,
    decreases scopes.len(),
{
    if scopes.len() > 0 {
        let last = scopes.last();
        if last.contains_key(k) {
            assert(scopes[scopes.len() - 1].contains_key(k));
        }
        assert(vars_below(scopes.drop_last(), n)) by {
            assert forall|i: int, k2: Seq<char>| 0 <= i < scopes.drop_last().len()
                && #[trigger] scopes.drop_last()[i].contains_key(k2) implies (
                scopes.drop_last()[i][k2] matches SpecSymbol::Variable(v) ==> v.id <= n) by {
                assert(scopes.drop_last()[i] == scopes[i]);
                assert(scopes[i].contains_key(k2));
            }
        }
        lemma_lookup_var_below(scopes.drop_last(), k, n);
    }
}

proof fn lemma_vars_below_insert_at(scopes: Seq<Map<Seq<char>, SpecSymbol>>, idx: int, k: Seq<char>, sym: SpecSymbol, n: int)
    requires
        vars_below(scopes, n),
        0 <= idx < scopes.len(),
        sym matches SpecSymbol::Variable(v) ==> v.id <= n,
    ensures
        vars_below(scopes.update(idx, scopes[idx].insert(k, sym)), n),
{
    let u = scopes.update(idx, scopes[idx].insert(k, sym));
    assert forall|i: int, k2: Seq<char>| 0 <= i < u.len() && #[trigger] u[i].contains_key(k2) implies (
        u[i][k2] matches SpecSymbol::Variable(v) ==> v.id <= n) by {
        if i == idx && k2 == k {
        } else if i == idx {
            assert(scopes[i].contains_key(k2));
        } else {
            assert(u[i] == scopes[i]);
            assert(scopes[i].contains_key(k2));
        }
    }
}

proof fn lemma_vars_below_mono(scopes: Seq<Map<Seq<char>, SpecSymbol>>, n: int, m: int)
    requires
        vars_below(scopes, n),
        n <= m,
    ensures
        vars_below(scopes, m),
{
    assert forall|i: int, k: Seq<char>| 0 <= i < scopes.len() && #[trigger] scopes[i].contains_key(k) implies (
        scopes[i][k] matches SpecSymbol::Variable(v) ==> v.id <= m) by {
    }
}

proof fn lemma_update_var_below(scopes: Seq<Map<Seq<char>, SpecSymbol>>, k: Seq<char>, info: SpecVariableInfo, n: int)
    requires
        vars_below(scopes, n),
        info.id <= n,
    ensures
        vars_below(update_var(scopes, k, info), n),
    decreases scopes.len(),
{
    if scopes.len() > 0 {
        let last = scopes.last();
        let init = scopes.drop_last();
        assert(vars_below(init, n)) by {
            assert forall|i: int, k2: Seq<char>| 0 <= i < init.len() && #[trigger] init[i].contains_key(k2) implies (
                init[i][k2] matches SpecSymbol::Variable(v) ==> v.id <= n) by {
                assert(init[i] == scopes[i]);
                assert(scopes[i].contains_key(k2));
            }
        }
        match last.get(k) {
            Some(SpecSymbol::Variable(_)) => {
                lemma_vars_below_insert_at(scopes, scopes.len() - 1, k, SpecSymbol::Variable(info), n);
                assert(init.push(last.insert(k, SpecSymbol::Variable(info))) =~= scopes.update(
                    scopes.len() - 1,
                    scopes[scopes.len() - 1].insert(k, SpecSymbol::Variable(info)),
                ));
            },
            _ => {
                lemma_update_var_below(init, k, info, n);
                lemma_update_var_len(init, k, info);
                let u = update_var(init, k, info).push(last);
                assert forall|i: int, k2: Seq<char>| 0 <= i < u.len() && #[trigger] u[i].contains_key(k2) implies (
                    u[i][k2] matches SpecSymbol::Variable(v) ==> v.id <= n) by {
                    if i == u.len() - 1 {
                        assert(u[i] == scopes[scopes.len() - 1]);
                        assert(scopes[scopes.len() - 1].contains_key(k2));
                    } else {
                        assert(u[i] == update_var(init, k, info)[i]);
                    }
                }
            },
        }
    }
}

/// What generating an expression keeps: numbers only grow, the code is in single-assignment
/// form over the numbers issued meanwhile, and the result names an issued number.
pub proof fn lemma_gen_expr_ssa(st: SpecIrState, e: SpecExpression)
    requires
        vars_below(st.scopes, st.next_id as int),
    ensures
        gen_expr(st, e) matches Ok((info, st1)) ==> {
            &&& st.next_id <= st1.next_id
            &&& vars_below(st1.scopes, st1.next_id as int)
            &&& ssa_code(info.code, st.next_id as int, st1.next_id as int)
            &&& info.id <= st1.next_id
            &&& info.code.len() > 0 ==> info.id == info.code.last().id
        },
    decreases e, 1int,
{
    match e {
        SpecExpression::Identifier(name) => {
            lemma_lookup_var_below(st.scopes, name, st.next_id as int);
        },
        SpecExpression::Number(n) => {
            if let Ok((id, st1)) = fresh(st) {
                lemma_vars_below_mono(st.scopes, st.next_id as int, st1.next_id as int);
                lemma_ssa_single(
                    Value { id, op: Op::CONST, arg1: Some(ValueType::CONST(n)), arg2: None },
                    st.next_id as int,
                    st1.next_id as int,
                );
            }
        },
        SpecExpression::Prefix(_, _) => lemma_gen_prefix_ssa(st, e),
        SpecExpression::Infix(_, _, _) => lemma_gen_infix_ssa(st, e),
        _ => {},
    }
}

pub proof fn lemma_gen_prefix_ssa(st: SpecIrState, e: SpecExpression)
    requires
        vars_below(st.scopes, st.next_id as int),
    ensures
        gen_prefix(st, e) matches Ok((info, st1)) ==> {
            &&& st.next_id <= st1.next_id
            &&& vars_below(st1.scopes, st1.next_id as int)
            &&& ssa_code(info.code, st.next_id as int, st1.next_id as int)
            &&& info.id <= st1.next_id
            &&& info.code.len() > 0 ==> info.id == info.code.last().id
        },
    decreases e, 0int,
{
    if let SpecExpression::Prefix(op, operand) = e {
        if op == SpecToken::DASH {
            lemma_gen_expr_ssa(st, *operand);
            if let Ok((info, st1)) = gen_expr(st, *operand) {
                if let Ok((id, st2)) = fresh(st1) {
                    let v = Value { id, op: Op::NEG, arg1: Some(ValueType::ID(info.id)), arg2: None };
                    lemma_vars_below_mono(st1.scopes, st1.next_id as int, st2.next_id as int);
                    lemma_ssa_single(v, st1.next_id as int, st2.next_id as int);
                    lemma_ssa_concat(info.code, seq![v], st.next_id as int, st1.next_id as int, st2.next_id as int);
                    assert(info.code.push(v) =~= info.code + seq![v]);
                }
            }
        }
    }
}

pub proof fn lemma_gen_infix_ssa(st: SpecIrState, e: SpecExpression)
    requires
        vars_below(st.scopes, st.next_id as int),
    ensures
        gen_infix(st, e) matches Ok((info, st1)) ==> {
            &&& st.next_id <= st1.next_id
            &&& vars_below(st1.scopes, st1.next_id as int)
            &&& ssa_code(info.code, st.next_id as int, st1.next_id as int)
            &&& info.id <= st1.next_id
            &&& info.code.len() > 0 ==> info.id == info.code.last().id
        },
    decreases e, 0int,
{
    if let SpecExpression::Infix(op, l, r) = e {
        lemma_gen_expr_ssa(st, *l);
        if let Ok((li, st1)) = gen_expr(st, *l) {
            lemma_gen_expr_ssa(st1, *r);
            if let Ok((ri, st2)) = gen_expr(st1, *r) {
                let n0 = st.next_id as int;
                let n1 = st1.next_id as int;
                let n2 = st2.next_id as int;
                if li.var_type.ident == ri.var_type.ident {
                    if op == SpecToken::ASSIGN {
                        if let SpecExpression::Identifier(ident) = *l {
                            if let Some(vi) = lookup_var(st2.scopes, ident) {
                                if ri.code.len() > 0 {
                                    let id = ri.code.last().id;
                                    assert(ri.code[ri.code.len() - 1].id <= n2);
                                    lemma_update_var_below(st2.scopes, ident, SpecVariableInfo { id, var_type: vi.var_type }, n2);
                                    lemma_ssa_weaken(ri.code, n1, n2, n0, n2);
                                }
                            }
                        }
                    } else if let Some(o) = binop_of(op) {
                        if valid_binop_for(o, li.var_type.ident) && valid_binop_for(o, ri.var_type.ident) {
                            if let Ok((id, st3)) = fresh(st2) {
                                let n3 = st3.next_id as int;
                                let v = Value {
                                    id,
                                    op: o,
                                    arg1: Some(ValueType::ID(li.id)),
                                    arg2: Some(ValueType::ID(ri.id)),
                                };
                                lemma_vars_below_mono(st2.scopes, n2, n3);
                                lemma_ssa_single(v, n2, n3);
                                lemma_ssa_concat(li.code, ri.code, n0, n1, n2);
                                lemma_ssa_concat(li.code + ri.code, seq![v], n0, n2, n3);
                            }
                        }
                    }
                }
            }
        }
    }
}

/// What generating a statement keeps (see `lemma_gen_expr_ssa`).
pub proof fn lemma_gen_stmt_ssa(st: SpecIrState, s: SpecStatement)
    requires
        vars_below(st.scopes, st.next_id as int),
        st.scopes.len() > 0,
    ensures
        gen_stmt(st, s) matches Ok((code, st1)) ==> {
            &&& st.next_id <= st1.next_id
            &&& vars_below(st1.scopes, st1.next_id as int)
            &&& ssa_code(code, st.next_id as int, st1.next_id as int)
        },
{
    let n0 = st.next_id as int;
    match s {
        SpecStatement::VariableDeclaration(var) => {
            let first = match var.value {
                Some(e) => gen_expr(st, e),
                None => match fresh(st) {
                    Ok((id, st1)) => Ok((
                        SpecExprInfo {
                            id,
                            code: seq![Value { id, op: Op::CONST, arg1: Some(ValueType::CONST(0)), arg2: None }],
                            var_type: var.var_type,
                        },
                        st1,
                    )),
                    Err(err) => Err(err),
                },
            };
            match var.value {
                Some(e) => {
                    lemma_gen_expr_ssa(st, e);
                    lemma_gen_expr_scopes(st, e);
                },
                None => {
                    if let Ok((id, st1)) = fresh(st) {
                        lemma_vars_below_mono(st.scopes, n0, st1.next_id as int);
                        lemma_ssa_single(
                            Value { id, op: Op::CONST, arg1: Some(ValueType::CONST(0)), arg2: None },
                            n0,
                            st1.next_id as int,
                        );
                    }
                },
            }
            if let Ok((info, st1)) = first {
                let n1 = st1.next_id as int;
                lemma_vars_below_insert_at(
                    st1.scopes,
                    st1.scopes.len() - 1,
                    var.name,
                    SpecSymbol::Variable(SpecVariableInfo { id: info.id, var_type: var.var_type }),
                    n1,
                );
                assert(st1.scopes[st1.scopes.len() - 1] == st1.scopes.last());
            }
        },
        SpecStatement::ExpressionStatement(e) => lemma_gen_expr_ssa(st, e),
        SpecStatement::ReturnStatement(e) => {
            lemma_gen_expr_ssa(st, e);
            if let Ok((info, st1)) = gen_expr(st, e) {
                if let Ok((id1, st2)) = fresh(st1) {
                    if let Ok((id2, st3)) = fresh(st2) {
                        let v1 = Value { id: id1, op: Op::RET_VAL, arg1: Some(ValueType::ID(info.id)), arg2: None };
                        let v2 = Value { id: id2, op: Op::RET, arg1: None, arg2: None };
                        let n1 = st1.next_id as int;
                        let n2 = st2.next_id as int;
                        let n3 = st3.next_id as int;
                        lemma_vars_below_mono(st1.scopes, n1, n3);
                        lemma_ssa_single(v1, n1, n2);
                        lemma_ssa_single(v2, n2, n3);
                        lemma_ssa_concat(info.code, seq![v1], n0, n1, n2);
                        lemma_ssa_concat(info.code + seq![v1], seq![v2], n0, n2, n3);
                        assert(info.code.push(v1).push(v2) =~= info.code + seq![v1] + seq![v2]);
                    }
                }
            }
        },
        _ => {},
    }
}

proof fn lemma_gen_stmts_ssa(st: SpecIrState, stmts: Seq<SpecStatement>, i: int, code: Seq<Value>, lo: int)
    requires
        vars_below(st.scopes, st.next_id as int),
        st.scopes.len() > 0,
        ssa_code(code, lo, st.next_id as int),
        lo <= st.next_id,
    ensures
        gen_stmts(st, stmts, i, code) matches Ok((code1, st1)) ==> {
            &&& st.next_id <= st1.next_id
            &&& vars_below(st1.scopes, st1.next_id as int)
            &&& ssa_code(code1, lo, st1.next_id as int)
            &&& st1.scopes.len() == st.scopes.len()
            &&& st1.fns == st.fns
        },
    decreases stmts.len() - i,
{
    if 0 <= i < stmts.len() {
        lemma_gen_stmt_ssa(st, stmts[i]);
        lemma_gen_stmt_scopes(st, stmts[i]);
        if let Ok((c, st1)) = gen_stmt(st, stmts[i]) {
            lemma_ssa_concat(code, c, lo, st.next_id as int, st1.next_id as int);
            lemma_gen_stmts_ssa(st1, stmts, i + 1, code + c, lo);
        }
    }
}

proof fn lemma_all_code_push(fns: Seq<SpecFn>, f: SpecFn)
    ensures
        all_code(fns.push(f)) == all_code(fns) + f.code,
{
    assert(fns.push(f).drop_last() =~= fns);
}

proof fn lemma_gen_decls_ssa(st: SpecIrState, decls: Seq<SpecDeclaration>, i: int)
    requires
        vars_below(st.scopes, st.next_id as int),
        ssa_code(all_code(st.fns), 0, st.next_id as int),
    ensures
        gen_decls(st, decls, i) matches Ok((_, st1)) ==> ssa_code(all_code(st1.fns), 0, st1.next_id as int),
    decreases decls.len() - i,
{
    if 0 <= i < decls.len() {
        match decls[i] {
            SpecDeclaration::FunctionDeclaration(f) => {
                let st1 = with_scopes(st, st.scopes.push(Map::empty()));
                assert(vars_below(st1.scopes, st.next_id as int)) by {
                    assert forall|j: int, k: Seq<char>| 0 <= j < st1.scopes.len() && #[trigger] st1.scopes[j].contains_key(k)
                        implies (st1.scopes[j][k] matches SpecSymbol::Variable(v) ==> v.id <= st.next_id) by {
                        if j < st.scopes.len() {
                            assert(st1.scopes[j] == st.scopes[j]);
                        }
                    }
                }
                lemma_gen_stmts_ssa(st1, f.stmts, 0, seq![], st.next_id as int);
                if let Ok((code, st2)) = gen_stmts(st1, f.stmts, 0, seq![]) {
                    let st3 = with_scopes(st2, st2.scopes.drop_last());
                    let fnir = SpecFn { name: f.name, code };
                    let st4 = SpecIrState { fns: st3.fns.push(fnir), scopes: st3.scopes, next_id: st3.next_id };
                    assert(vars_below(st3.scopes, st3.next_id as int)) by {
                        assert forall|j: int, k: Seq<char>| 0 <= j < st3.scopes.len() && #[trigger] st3.scopes[j].contains_key(k)
                            implies (st3.scopes[j][k] matches SpecSymbol::Variable(v) ==> v.id <= st3.next_id) by {
                            assert(st3.scopes[j] == st2.scopes[j]);
                            assert(st2.scopes[j].contains_key(k));
                        }
                    }
                    lemma_all_code_push(st3.fns, fnir);
                    lemma_ssa_weaken(all_code(st.fns), 0, st.next_id as int, 0, st.next_id as int);
                    lemma_ssa_concat(all_code(st.fns), code, 0, st.next_id as int, st2.next_id as int);
                    lemma_gen_decls_ssa(st4, decls, i + 1);
                }
            },
            _ => {
                lemma_gen_decls_ssa(st, decls, i + 1);
            },
        }
    }
}

proof fn lemma_with_builtins_below(m: Map<Seq<char>, SpecSymbol>, i: int, scopes: Seq<Map<Seq<char>, SpecSymbol>>, n: int)
    requires
        vars_below(scopes, n),
        scopes.len() > 0,
        m == scopes[0],
    ensures
        vars_below(scopes.update(0, with_builtins(m, i)), n),
    decreases 10 - i,
{
    if 0 <= i < 10 {
        let t = all_builtins()[i];
        let m2 = m.insert(builtin_name(t), SpecSymbol::Type(builtin_size(t)));
        lemma_vars_below_insert_at(scopes, 0, builtin_name(t), SpecSymbol::Type(builtin_size(t)), n);
        let scopes2 = scopes.update(0, m2);
        lemma_with_builtins_below(m2, i + 1, scopes2, n);
        assert(scopes2.update(0, with_builtins(m2, i + 1)) =~= scopes.update(0, with_builtins(m, i)));
    } else {
        assert(scopes.update(0, m) =~= scopes);
    }
}

/// Whether `t` is a binary operator token: an arithmetic operator or a comparison.
pub open spec fn is_binary_operator(t: SpecToken) -> bool {
    ||| t is PLUS || t is DASH || t is ASTERISK || t is SLASH
    ||| t is LT || t is GT || t is LEQ || t is GEQ || t is EQ || t is NEQ
}

/// A binary operator token is compiled to the operation that prints as the token's own source
/// text (`>` to the operation printed `>`, `-` to the one printed `-`), and that operation is a
/// binary one: no negation, complement, constant, copy or return. No other token is compiled to
/// an operation.
pub proof fn law_operation_of_operator(t: SpecToken)
    ensures
        binop_of(t) is Some <==> is_binary_operator(t),
        binop_of(t) matches Some(o) ==> {
            &&& op_text(o) == token_literal(t)
            &&& o != Op::NEG && o != Op::NOT && o != Op::CONST && o != Op::COPY
            &&& o != Op::RET_VAL && o != Op::RET
        },
{
}

/// Distinct binary operator tokens are compiled to operations that print differently, so the
/// printed code tells every binary operation apart.
pub proof fn law_operations_print_apart(t1: SpecToken, t2: SpecToken)
    requires
        is_binary_operator(t1),
        is_binary_operator(t2),
        t1 != t2,
    ensures
        op_text(binop_of(t1)->0) != op_text(binop_of(t2)->0),
        binop_of(t1) != binop_of(t2),
{
    law_operation_of_operator(t1);
    law_operation_of_operator(t2);
    law_literal_lexes_back(t1);
    law_literal_lexes_back(t2);
    if token_literal(t1) == token_literal(t2) {
        assert(seq![t1, SpecToken::EOF][0] == seq![t2, SpecToken::EOF][0]);
    }
}

/// A binary operation's result has the left operand's type for arithmetic (`+ - * /`) and the
/// built-in type `bool` for a comparison.
pub proof fn law_result_types(st: SpecIrState, op: SpecToken, l: SpecExpression, r: SpecExpression)
    requires
        is_binary_operator(op),
    ensures
        gen_infix(st, SpecExpression::Infix(op, Box::new(l), Box::new(r))) matches Ok((info, _)) ==> {
            &&& gen_expr(st, l) matches Ok((li, _))
            &&& (op is PLUS || op is DASH || op is ASTERISK || op is SLASH) ==> info.var_type == li.var_type
            &&& !(op is PLUS || op is DASH || op is ASTERISK || op is SLASH) ==> {
                &&& builtin_from_name(info.var_type.ident) == Some(BuiltInTypes::bool)
                &&& !info.var_type.pointer && !info.var_type.array
            }
        },
{
    law_builtin_name_roundtrip(BuiltInTypes::bool);
}

/// A prefix minus gives the operand's code and then one instruction, printed as the `-` token's
/// source text, that negates the operand's result; the result keeps the operand's type.
pub proof fn law_negation_code(st: SpecIrState, operand: SpecExpression)
    ensures
        gen_prefix(st, SpecExpression::Prefix(SpecToken::DASH, Box::new(operand))) matches Ok((info, _)) ==> {
            &&& gen_expr(st, operand) matches Ok((oi, st1))
            &&& info.id == st1.next_id + 1
            &&& info.var_type == oi.var_type
            &&& info.code == oi.code.push(Value { id: info.id, op: Op::NEG, arg1: Some(ValueType::ID(oi.id)), arg2: None })
            &&& op_text(Op::NEG) == token_literal(SpecToken::DASH)
        },
{
}

/// Equality and inequality suit operands of every type: for any type name both are allowed,
/// so an `==` or `!=` between two operands of one type (`bool` ones too) always gets code while
/// numbers remain to be issued.
pub proof fn law_equality_suits_every_type(st: SpecIrState, op: SpecToken, l: SpecExpression, r: SpecExpression, tname: Seq<char>)
    requires
        op == SpecToken::EQ || op == SpecToken::NEQ,
    ensures
        valid_binop_for(binop_of(op)->0, tname),
        ({
            &&& gen_expr(st, l) matches Ok((li, st1))
            &&& gen_expr(st1, r) matches Ok((ri, st2))
            &&& li.var_type.ident == ri.var_type.ident
            &&& st2.next_id < u64::MAX
        }) ==> gen_infix(st, SpecExpression::Infix(op, Box::new(l), Box::new(r))) is Ok,
{
}

/// Arithmetic and ordering suit exactly the numeric built-in types: every built-in type but
/// `bool` allows them, `bool` does not, and neither does a name that is no built-in type.
pub proof fn law_arithmetic_needs_numbers(op: SpecToken, b: BuiltInTypes, tname: Seq<char>)
    requires
        is_binary_operator(op),
        op != SpecToken::EQ,
        op != SpecToken::NEQ,
    ensures
        valid_binop_for(binop_of(op)->0, builtin_name(b)) <==> b != BuiltInTypes::bool,
        builtin_from_name(tname) is None ==> !valid_binop_for(binop_of(op)->0, tname),
{
    law_builtin_name_roundtrip(b);
}

/// The code of a binary operation is the left operand's code, then the right operand's code,
/// then one instruction that applies the operator's operation to the two operands' results;
/// that instruction's number is the next one issued.
pub proof fn law_infix_code(st: SpecIrState, op: SpecToken, l: SpecExpression, r: SpecExpression)
    requires
        op != SpecToken::ASSIGN,
    ensures
        gen_infix(st, SpecExpression::Infix(op, Box::new(l), Box::new(r))) matches Ok((info, _)) ==> {
            &&& gen_expr(st, l) matches Ok((li, st1))
            &&& gen_expr(st1, r) matches Ok((ri, st2))
            &&& binop_of(op) matches Some(o)
            &&& info.id == st2.next_id + 1
            &&& info.code == li.code + ri.code + seq![
                Value { id: info.id, op: o, arg1: Some(ValueType::ID(li.id)), arg2: Some(ValueType::ID(ri.id)) },
            ]
        },
{
}

/// An assignment `name = r` gives the code of `r` and rebinds `name`, in the innermost scope
/// where it stands for a variable, to the last instruction of that code, keeping its type; a
/// variable lookup of `name` then finds that instruction.
pub proof fn law_assignment_rebinds(st: SpecIrState, name: Seq<char>, r: SpecExpression)
    ensures
        gen_infix(
            st,
            SpecExpression::Infix(SpecToken::ASSIGN, Box::new(SpecExpression::Identifier(name)), Box::new(r)),
        ) matches Ok((info, st3)) ==> {
            &&& gen_expr(st, r) matches Ok((ri, st2))
            &&& lookup_var(st2.scopes, name) matches Some(vi)
            &&& ri.code.len() > 0
            &&& info.id == ri.code.last().id
            &&& info.code == ri.code
            &&& st3.scopes == update_var(st2.scopes, name, SpecVariableInfo { id: info.id, var_type: vi.var_type })
            &&& lookup_var(st3.scopes, name) == Some(SpecVariableInfo { id: info.id, var_type: vi.var_type })
        },
{
    let e = SpecExpression::Infix(SpecToken::ASSIGN, Box::new(SpecExpression::Identifier(name)), Box::new(r));
    if let Ok((info, st3)) = gen_infix(st, e) {
        let (ri, st2) = gen_expr(st, r)->Ok_0;
        let vi = lookup_var(st2.scopes, name)->0;
        law_update_then_lookup(st2.scopes, name, SpecVariableInfo { id: info.id, var_type: vi.var_type }, name);
    }
}

/// A declaration with a value binds the variable, in the innermost scope, to the number of the
/// value's result and the declared type; a variable lookup of the name then finds it.
pub proof fn law_declaration_binds(st: SpecIrState, var: SpecVariable)
    requires
        st.scopes.len() > 0,
        var.value is Some,
    ensures
        gen_var_decl(st, var) matches Ok((code, st2)) ==> {
            &&& gen_expr(st, var.value->0) matches Ok((info, _))
            &&& code == info.code
            &&& st2.scopes.last().get(var.name)
                == Some(SpecSymbol::Variable(SpecVariableInfo { id: info.id, var_type: var.var_type }))
            &&& lookup_var(st2.scopes, var.name) == Some(SpecVariableInfo { id: info.id, var_type: var.var_type })
        },
{
    lemma_gen_expr_scopes(st, var.value->0);
    if let Ok((code, st2)) = gen_var_decl(st, var) {
        let (info, st1) = gen_expr(st, var.value->0)->Ok_0;
        assert(st2.scopes.last() == st2.scopes[st1.scopes.len() - 1]);
    }
}

/// Generated code is in single-assignment form: over all functions generated so far, one after
/// another, the instruction numbers increase strictly, so no number is defined twice, and every
/// value argument of an instruction names a number defined before it.
pub proof fn law_generated_code_is_ssa(st: SpecIrState, node: SpecNode)
    requires
        vars_below(st.scopes, st.next_id as int),
        ssa_code(all_code(st.fns), 0, st.next_id as int),
    ensures
        gen_ssa(st, node) matches Ok((fns, st2)) ==> ssa_code(all_code(fns), 0, st2.next_id as int),
{
    let scopes = st.scopes.push(Map::empty());
    assert(vars_below(scopes, st.next_id as int)) by {
        assert forall|j: int, k: Seq<char>| 0 <= j < scopes.len() && #[trigger] scopes[j].contains_key(k)
            implies (scopes[j][k] matches SpecSymbol::Variable(v) ==> v.id <= st.next_id) by {
            if j < st.scopes.len() {
                assert(scopes[j] == st.scopes[j]);
            }
        }
    }
    lemma_with_builtins_below(scopes[0], 0, scopes, st.next_id as int);
    let st1 = with_scopes(st, scopes.update(0, with_builtins(scopes[0], 0)));
    if let SpecNode::Program(decls) = node {
        lemma_gen_decls_ssa(st1, decls, 0);
    }
}

/// The instructions of `code` are numbered `lo + 1`, `lo + 2`, ... in order.
pub open spec fn numbered_from(code: Seq<Value>, lo: int) -> bool {
    forall|i: int| 0 <= i < code.len() ==> (#[trigger] code[i]).id == lo + 1 + i
}

/// Generation from `st` gave `code` and left `st1`: the numbers issued meanwhile are exactly
/// those of `code`, in order.
pub open spec fn issued_as(code: Seq<Value>, st: SpecIrState, st1: SpecIrState) -> bool {
    &&& numbered_from(code, st.next_id as int)
    &&& st1.next_id == st.next_id + code.len()
}

proof fn lemma_numbered_concat(a: Seq<Value>, b: Seq<Value>, lo: int)
    requires
        numbered_from(a, lo),
        numbered_from(b, lo + a.len()),
    ensures
        numbered_from(a + b, lo),
{
    assert forall|i: int| 0 <= i < (a + b).len() implies (#[trigger] (a + b)[i]).id == lo + 1 + i by {
        if i >= a.len() {
            assert((a + b)[i] == b[i - a.len()]);
        }
    }
}

proof fn lemma_gen_expr_numbered(st: SpecIrState, e: SpecExpression)
    ensures
        gen_expr(st, e) matches Ok((info, st1)) ==> issued_as(info.code, st, st1),
    decreases e, 1int,
{
    match e {
        SpecExpression::Prefix(_, _) => lemma_gen_prefix_numbered(st, e),
        SpecExpression::Infix(_, _, _) => lemma_gen_infix_numbered(st, e),
        _ => {},
    }
}

proof fn lemma_gen_prefix_numbered(st: SpecIrState, e: SpecExpression)
    ensures
        gen_prefix(st, e) matches Ok((info, st1)) ==> issued_as(info.code, st, st1),
    decreases e, 0int,
{
    if let SpecExpression::Prefix(op, operand) = e {
        lemma_gen_expr_numbered(st, *operand);
        if let Ok((info, st1)) = gen_expr(st, *operand) {
            if let Ok((id, st2)) = fresh(st1) {
                let v = Value { id, op: Op::NEG, arg1: Some(ValueType::ID(info.id)), arg2: None };
                lemma_numbered_concat(info.code, seq![v], st.next_id as int);
                assert(info.code.push(v) =~= info.code + seq![v]);
            }
        }
    }
}

proof fn lemma_gen_infix_numbered(st: SpecIrState, e: SpecExpression)
    ensures
        gen_infix(st, e) matches Ok((info, st1)) ==> issued_as(info.code, st, st1),
    decreases e, 0int,
{
    if let SpecExpression::Infix(op, l, r) = e {
        lemma_gen_expr_numbered(st, *l);
        if let Ok((li, st1)) = gen_expr(st, *l) {
            lemma_gen_expr_numbered(st1, *r);
            if let Ok((ri, st2)) = gen_expr(st1, *r) {
                if op != SpecToken::ASSIGN {
                    if let Ok((id, st3)) = fresh(st2) {
                        let v = Value { id, op: binop_of(op)->0, arg1: Some(ValueType::ID(li.id)), arg2: Some(ValueType::ID(ri.id)) };
                        lemma_numbered_concat(li.code, ri.code, st.next_id as int);
                        lemma_numbered_concat(li.code + ri.code, seq![v], st.next_id as int);
                    }
                }
            }
        }
    }
}

proof fn lemma_gen_stmt_numbered(st: SpecIrState, s: SpecStatement)
    ensures
        gen_stmt(st, s) matches Ok((code, st1)) ==> issued_as(code, st, st1),
{
    match s {
        SpecStatement::VariableDeclaration(var) => {
            if let Some(e) = var.value {
                lemma_gen_expr_numbered(st, e);
            }
        },
        SpecStatement::ExpressionStatement(e) => lemma_gen_expr_numbered(st, e),
        SpecStatement::ReturnStatement(e) => {
            lemma_gen_expr_numbered(st, e);
            if let Ok((info, st1)) = gen_expr(st, e) {
                if let Ok((id1, st2)) = fresh(st1) {
                    if let Ok((id2, st3)) = fresh(st2) {
                        let v1 = Value { id: id1, op: Op::RET_VAL, arg1: Some(ValueType::ID(info.id)), arg2: None };
                        let v2 = Value { id: id2, op: Op::RET, arg1: None, arg2: None };
                        lemma_numbered_concat(info.code, seq![v1, v2], st.next_id as int);
                        assert(info.code.push(v1).push(v2) =~= info.code + seq![v1, v2]);
                    }
                }
            }
        },
        _ => {},
    }
}

proof fn lemma_gen_stmts_numbered(st: SpecIrState, stmts: Seq<SpecStatement>, i: int, code: Seq<Value>, lo: int)
    requires
        numbered_from(code, lo),
        st.next_id == lo + code.len(),
    ensures
        gen_stmts(st, stmts, i, code) matches Ok((code1, st1)) ==> {
            &&& numbered_from(code1, lo)
            &&& st1.next_id == lo + code1.len()
        },
    decreases stmts.len() - i,
{
    if 0 <= i < stmts.len() {
        lemma_gen_stmt_numbered(st, stmts[i]);
        if let Ok((c, st1)) = gen_stmt(st, stmts[i]) {
            lemma_numbered_concat(code, c, lo);
            lemma_gen_stmts_numbered(st1, stmts, i + 1, code + c, lo);
        }
    }
}

/// Generating statements keeps the functions generated so far.
proof fn lemma_gen_stmts_fns(st: SpecIrState, stmts: Seq<SpecStatement>, i: int, code: Seq<Value>)
    ensures
        gen_stmts(st, stmts, i, code) matches Ok((_, st1)) ==> st1.fns == st.fns,
    decreases stmts.len() - i,
{
    if 0 <= i < stmts.len() {
        lemma_gen_stmt_scopes(st, stmts[i]);
        if let Ok((c, st1)) = gen_stmt(st, stmts[i]) {
            lemma_gen_stmts_fns(st1, stmts, i + 1, code + c);
        }
    }
}

proof fn lemma_gen_decls_numbered(st: SpecIrState, decls: Seq<SpecDeclaration>, i: int)
    requires
        numbered_from(all_code(st.fns), 0),
        all_code(st.fns).len() == st.next_id,
    ensures
        gen_decls(st, decls, i) matches Ok((_, st1)) ==> {
            &&& numbered_from(all_code(st1.fns), 0)
            &&& all_code(st1.fns).len() == st1.next_id
        },
    decreases decls.len() - i,
{
    if 0 <= i < decls.len() {
        match decls[i] {
            SpecDeclaration::FunctionDeclaration(f) => {
                let st1 = with_scopes(st, st.scopes.push(Map::empty()));
                lemma_gen_stmts_numbered(st1, f.stmts, 0, seq![], st.next_id as int);
                if let Ok((code, st2)) = gen_stmts(st1, f.stmts, 0, seq![]) {
                    let st3 = with_scopes(st2, st2.scopes.drop_last());
                    let fnir = SpecFn { name: f.name, code };
                    let st4 = SpecIrState { fns: st3.fns.push(fnir), scopes: st3.scopes, next_id: st3.next_id };
                    lemma_gen_stmts_fns(st1, f.stmts, 0, seq![]);
                    lemma_all_code_push(st3.fns, fnir);
                    lemma_numbered_concat(all_code(st.fns), code, 0);
                    lemma_gen_decls_numbered(st4, decls, i + 1);
                }
            },
            _ => {
                lemma_gen_decls_numbered(st, decls, i + 1);
            },
        }
    }
}

/// The code that a new generator produces for a program is in single-assignment form.
/// Moreover its instructions, over all functions one after another, are numbered 1, 2, 3, ...
/// without a gap, and the last number issued is that of the last instruction.
pub proof fn law_new_generator_code_is_ssa(node: SpecNode)
    ensures
        gen_ssa(SpecIrState { fns: Seq::empty(), scopes: Seq::empty(), next_id: 0 }, node) matches Ok((fns, st2))
            ==> {
            &&& ssa_code(all_code(fns), 0, st2.next_id as int)
            &&& numbered_from(all_code(fns), 0)
            &&& all_code(fns).len() == st2.next_id
        },
{
    let st = SpecIrState { fns: Seq::empty(), scopes: Seq::empty(), next_id: 0 };
    assert(all_code(st.fns) =~= Seq::<Value>::empty());
    law_generated_code_is_ssa(st, node);
    let scopes = st.scopes.push(Map::empty());
    let st1 = with_scopes(st, scopes.update(0, with_builtins(scopes[0], 0)));
    if let SpecNode::Program(decls) = node {
        lemma_gen_decls_numbered(st1, decls, 0);
    }
}

// ---------------------------------------------------------------------------
// Printed forms

/// The symbol of an operation; the name of those that have none.
pub open spec fn op_text(op: Op) -> Seq<char> {
    match op {
        Op::CONST => "CONST"@,
        Op::COPY => "COPY"@,
        Op::NEG => "-"@,
        Op::ADD => "+"@,
        Op::MULT => "*"@,
        Op::SUB => "-"@,
        Op::DIV => "/"@,
        Op::NOT => "~"@,
        Op::AND => "&"@,
        Op::OR => "|"@,
        Op::XOR => "^"@,
        Op::LT => "<"@,
        Op::GT => ">"@,
        Op::LEQ => "<="@,
        Op::GEQ => ">="@,
        Op::EQ => "=="@,
        Op::NEQ => "!="@,
        Op::RET_VAL => "RET_VAL"@,
        Op::RET => "RET"@,
    }
}

pub open spec fn value_type_text(v: ValueType) -> Seq<char> {
    match v {
        ValueType::ID(id) => decimal(id as nat),
        ValueType::CONST(n) => decimal(n as nat),
    }
}

/// `v<id> = <op>`, then ` v<a>` or ` <c>` for the first argument and `, v<a>` or `, <c>`
/// for the second.
pub open spec fn value_text(v: Value) -> Seq<char> {
    let s1 = "v"@ + decimal(v.id as nat) + " = "@ + op_text(v.op);
    let s2 = match v.arg1 {
        Some(ValueType::ID(id)) => s1 + " v"@ + decimal(id as nat),
        Some(ValueType::CONST(c)) => s1 + " "@ + decimal(c as nat),
        None => s1,
    };
    match v.arg2 {
        Some(ValueType::ID(id)) => s2 + ", v"@ + decimal(id as nat),
        Some(ValueType::CONST(c)) => s2 + ", "@ + decimal(c as nat),
        None => s2,
    }
}

/// Each instruction indented by a tab and followed by a newline.
pub open spec fn code_text(code: Seq<Value>) -> Seq<char>
    decreases code.len(),
{
    if code.len() == 0 {
        Seq::empty()
    } else {
        code_text(code.drop_last()) + "\t"@ + value_text(code.last()) + "\n"@
    }
}

pub open spec fn fn_text(f: SpecFn) -> Seq<char> {
    f.name + ":\n"@ + code_text(f.code)
}

pub open spec fn fns_text(fns: Seq<SpecFn>) -> Seq<char>
    decreases fns.len(),
{
    if fns.len() == 0 {
        Seq::empty()
    } else {
        fns_text(fns.drop_last()) + fn_text(fns.last())
    }
}

fn op_string(op: Op) -> (s: String)
    ensures
        s@ == op_text(op),
{
    match op {
        Op::CONST => lit("CONST"),
        Op::COPY => lit("COPY"),
        Op::NEG => lit("-"),
        Op::ADD => lit("+"),
        Op::MULT => lit("*"),
        Op::SUB => lit("-"),
        Op::DIV => lit("/"),
        Op::NOT => lit("~"),
        Op::AND => lit("&"),
        Op::OR => lit("|"),
        Op::XOR => lit("^"),
        Op::LT => lit("<"),
        Op::GT => lit(">"),
        Op::LEQ => lit("<="),
        Op::GEQ => lit(">="),
        Op::EQ => lit("=="),
        Op::NEQ => lit("!="),
        Op::RET_VAL => lit("RET_VAL"),
        Op::RET => lit("RET"),
    }
}

impl Op {
    /// The printed form of the operation.
    pub fn display(&self) -> (s: String)
        ensures
            s@ == op_text(*self),
    {
        op_string(*self)
    }
}

impl ValueType {
    /// The number that the argument holds.
    pub fn display(&self) -> (s: String)
        ensures
            s@ == value_type_text(*self),
    {
        match self {
            ValueType::ID(id) => u64_to_decimal(*id),
            ValueType::CONST(n) => u64_to_decimal(*n),
        }
    }
}

impl Value {
    /// The printed form of the instruction, such as `v3 = + v1, v2`.
    pub fn display(&self) -> (s: String)
        ensures
            s@ == value_text(*self),
    {
        let mut s = lit("v");
        push_str(&mut s, u64_to_decimal(self.id).as_str());
        push_str(&mut s, " = ");
        push_str(&mut s, op_string(self.op).as_str());

        if let Some(arg1) = self.arg1 {
            match arg1 {
                ValueType::ID(id) => {
                    push_str(&mut s, " v");
                    push_str(&mut s, u64_to_decimal(id).as_str());
                },
                ValueType::CONST(c) => {
                    push_str(&mut s, " ");
                    push_str(&mut s, u64_to_decimal(c).as_str());
                },
            }
        }
        if let Some(arg2) = self.arg2 {
            match arg2 {
                ValueType::ID(id) => {
                    push_str(&mut s, ", v");
                    push_str(&mut s, u64_to_decimal(id).as_str());
                },
                ValueType::CONST(c) => {
                    push_str(&mut s, ", ");
                    push_str(&mut s, u64_to_decimal(c).as_str());
                },
            }
        }
        assert(s@ =~= value_text(*self));
        s
    }
}

impl Fn {
    /// The name of the function, a colon, and then its instructions, one per line.
    pub fn display(&self) -> (s: String)
        ensures
            s@ == fn_text(self@),
    {
        let mut s = self.name.clone();
        push_str(&mut s, ":\n");
        let ghost head = s@;
        let ghost code = self.code@;
        assert(code.subrange(0, 0) =~= Seq::<Value>::empty());
        assert(s@ =~= head + code_text(code.subrange(0, 0)));
        let mut i: usize = 0;
        while i < self.code.len()
            invariant
                i <= code.len(),
                code == self.code@,
                s@ == head + code_text(code.subrange(0, i as int)),
            decreases code.len() - i,
        {
            push_str(&mut s, "\t");
            push_str(&mut s, self.code[i].display().as_str());
            push_str(&mut s, "\n");
            let ghost k = i as int;
            i = i + 1;
            assert(code.subrange(0, k + 1).drop_last() =~= code.subrange(0, k));
            assert(s@ =~= head + code_text(code.subrange(0, k + 1)));
        }
        assert(code.subrange(0, i as int) =~= code);
        s
    }
}

impl IR {
    /// The printed forms of the generated functions, one after another.
    pub fn display(&self) -> (s: String)
        ensures
            s@ == fns_text(self@.fns),
    {
        let mut s = String::new();
        let ghost fns = self@.fns;
        assert(fns.subrange(0, 0) =~= Seq::<SpecFn>::empty());
        assert(s@ =~= fns_text(fns.subrange(0, 0)));
        let mut i: usize = 0;
        while i < self.fns.len()
            invariant
                i <= self.fns@.len(),
                fns == self@.fns,
                s@ == fns_text(fns.subrange(0, i as int)),
            decreases self.fns@.len() - i,
        {
            push_str(&mut s, self.fns[i].display().as_str());
            let ghost k = i as int;
            i = i + 1;
            assert(fns.subrange(0, k + 1).drop_last() =~= fns.subrange(0, k));
            assert(s@ =~= fns_text(fns.subrange(0, k + 1)));
        }
        assert(fns.subrange(0, i as int) =~= fns);
        s
    }

    /// The entries of the outermost scope in the order of their definition: each name once,
    /// together standing for the outermost scope's map (see `global_scope_display`).
    pub closed spec fn global_entries(&self) -> Seq<(Seq<char>, SpecSymbol)> {
        self.scopes@[0].entries()
    }

    /// The printed form of the outermost scope, if there is one.
    pub fn global_scope_display(&self) -> (s: Option<String>)
        ensures
            self@.scopes.len() == 0 ==> s is None,
            self@.scopes.len() > 0 ==> (s matches Some(t) && t@ == crate::symbol_table::table_text(
                self.global_entries(),
            )),
            self@.scopes.len() > 0 ==> crate::symbol_table::distinct_names(self.global_entries()),
            self@.scopes.len() > 0 ==> crate::symbol_table::entries_map(self.global_entries()) == self@.scopes[0],
    {
        if self.scopes.len() == 0 {
            None
        } else {
            let global = &self.scopes[0];
            proof { use_type_invariant(global); }
            Some(global.display())
        }
    }
}

} // verus!
