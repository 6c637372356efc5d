//! A recursive-descent parser with precedence climbing for expressions.
use vstd::prelude::*;

use crate::ast::{
    decls_view, expr_text, exprs_view, lemma_exprs_view_push, lemma_stmts_view_push, stmts_view, vars_view,
    strings_view, CallExpression, Declaration, Expression, For, Function, If, InfixExpression, Node,
    PrefixExpression, SpecDeclaration, SpecExpression, SpecFunction, SpecNode, SpecStatement,
    SpecVariable, SpecVariableType, Statement, Variable, VariableType,
};
use crate::lexer::{token_literal, tokens_view, SpecToken, Token};
use crate::symbol_table::SymbolTable;

verus! {

/// Why the tokens do not form a program.
pub enum SpecParseError {
    /// The first token was expected, the second was found.
    Expected(SpecToken, SpecToken),
    ExpectedIdentifier(SpecToken),
    ExpectedTypeName(SpecToken),
    ExpectedReturnType(SpecToken),
    NoMatchingDeclaration,
    CannotInferType(Seq<char>),
    ExpectedSemicolonOrAssign(SpecToken),
    ExpectedForSeparator(SpecToken),
    ExpectedPrefixExpression(SpecToken),
    ExpectedCallee(SpecExpression),
    /// The size of an array type, a number, was expected; this token was found.
    ExpectedArraySize(SpecToken),
    /// A step that consumed no token; never produced (see `lemma_parse_progress`).
    NoProgress,
}

/// A parsed value and the position after it, or an error.
pub type PResult<T> = Result<(T, int), SpecParseError>;

/// The token at position `p`; `EOF` past the end.
pub open spec fn tok(ts: Seq<SpecToken>, p: int) -> SpecToken {
    if 0 <= p < ts.len() { ts[p] } else { SpecToken::EOF }
}

/// Binding powers.
pub open spec fn level_none() -> nat { 0 }
pub open spec fn level_prefix() -> nat { 5 }

/// The binding power of a token in infix position; 0 for a token that is no infix operator.
pub open spec fn infix_level(t: SpecToken) -> nat {
    match t {
        SpecToken::ASSIGN => 1,
        SpecToken::PLUS | SpecToken::DASH => 3,
        SpecToken::ASTERISK | SpecToken::SLASH => 4,
        SpecToken::LT | SpecToken::LEQ | SpecToken::GT | SpecToken::GEQ | SpecToken::EQ | SpecToken::NEQ => 2,
        SpecToken::LPAREN => 7,
        _ => 0,
    }
}

/// Consumes the token `t` at `p`.
pub open spec fn consume(ts: Seq<SpecToken>, p: int, t: SpecToken) -> Result<int, SpecParseError> {
    if tok(ts, p) == t { Ok(p + 1) } else { Err(SpecParseError::Expected(t, tok(ts, p))) }
}

/// `p < q <= |ts|`: a step that consumed at least one token.
pub open spec fn advanced(ts: Seq<SpecToken>, p: int, q: int) -> bool {
    p < q <= ts.len()
}

// ---------------------------------------------------------------------------
// Expressions

/// An expression whose operators bind tighter than `prec`, from `p`.
pub open spec fn parse_expr(ts: Seq<SpecToken>, p: int, prec: nat) -> PResult<SpecExpression>
    decreases ts.len() - p, 3int,
{
    let t = tok(ts, p);
    match t {
        SpecToken::IDENTIFIER(s) => parse_infix_loop(ts, SpecExpression::Identifier(s), p + 1, prec),
        SpecToken::NUMBER(n) => parse_infix_loop(ts, SpecExpression::Number(n), p + 1, prec),
        SpecToken::TRUE => parse_infix_loop(ts, SpecExpression::Bool(true), p + 1, prec),
        SpecToken::FALSE => parse_infix_loop(ts, SpecExpression::Bool(false), p + 1, prec),
        SpecToken::DASH | SpecToken::TILDE | SpecToken::BANG | SpecToken::ASTERISK | SpecToken::AMPERSAND => {
            match parse_expr(ts, p + 1, level_prefix()) {
                Ok((operand, q)) => if advanced(ts, p, q) {
                    parse_infix_loop(ts, SpecExpression::Prefix(t, Box::new(operand)), q, prec)
                } else {
                    Err(SpecParseError::NoProgress)
                },
                Err(e) => Err(e),
            }
        },
        SpecToken::LPAREN => {
            match parse_expr(ts, p + 1, level_none()) {
                Ok((inner, q)) => if advanced(ts, p, q) {
                    match consume(ts, q, SpecToken::RPAREN) {
                        Ok(r) => parse_infix_loop(ts, inner, r, prec),
                        Err(e) => Err(e),
                    }
                } else {
                    Err(SpecParseError::NoProgress)
                },
                Err(e) => Err(e),
            }
        },
        _ => Err(SpecParseError::ExpectedPrefixExpression(t)),
    }
}

/// Extends `left` with infix operators binding tighter than `prec`, from `p`.
pub open spec fn parse_infix_loop(ts: Seq<SpecToken>, left: SpecExpression, p: int, prec: nat) -> PResult<SpecExpression>
    decreases ts.len() - p, 2int,
{
    let t = tok(ts, p);
    if t != SpecToken::SEMICOLON && prec < infix_level(t) {
        match parse_infix(ts, left, p) {
            Ok((e, q)) => if advanced(ts, p, q) {
                parse_infix_loop(ts, e, q, prec)
            } else {
                Err(SpecParseError::NoProgress)
            },
            Err(e) => Err(e),
        }
    } else {
        Ok((left, p))
    }
}

/// The infix operator at `p` (a binary operator or a call's `(`) applied to `left`.
pub open spec fn parse_infix(ts: Seq<SpecToken>, left: SpecExpression, p: int) -> PResult<SpecExpression>
    decreases ts.len() - p, 1int,
{
    let t = tok(ts, p);
    if t == SpecToken::LPAREN {
        match left {
            SpecExpression::Identifier(name) => {
                if p < ts.len() {
                    match parse_call_args(ts, p + 1, true, seq![]) {
                        Ok((args, q)) => Ok((SpecExpression::Call(name, args), q)),
                        Err(e) => Err(e),
                    }
                } else {
                    Err(SpecParseError::NoProgress)
                }
            },
            _ => Err(SpecParseError::ExpectedCallee(left)),
        }
    } else if p < ts.len() {
        match parse_expr(ts, p + 1, infix_level(t)) {
            Ok((right, q)) => Ok((SpecExpression::Infix(t, Box::new(left), Box::new(right)), q)),
            Err(e) => Err(e),
        }
    } else {
        Err(SpecParseError::NoProgress)
    }
}

/// The arguments of a call up to and including its `)`, appended to `acc`.
pub open spec fn parse_call_args(ts: Seq<SpecToken>, p: int, first: bool, acc: Seq<SpecExpression>) -> PResult<Seq<SpecExpression>>
    decreases ts.len() - p, 4int,
{
    if tok(ts, p) == SpecToken::RPAREN {
        Ok((acc, p + 1))
    } else {
        let q = if first { Ok(p) } else { consume(ts, p, SpecToken::COMMA) };
        match q {
            Err(e) => Err(e),
            Ok(q) => if p <= q <= ts.len() {
                match parse_expr(ts, q, level_none()) {
                    Ok((e, r)) => if advanced(ts, p, r) {
                        parse_call_args(ts, r, false, acc.push(e))
                    } else {
                        Err(SpecParseError::NoProgress)
                    },
                    Err(e) => Err(e),
                }
            } else {
                Err(SpecParseError::NoProgress)
            },
        }
    }
}


// ---------------------------------------------------------------------------
// Statements and declarations

/// A variable type that names `typ`, or no name when no type was written.
pub open spec fn named_type(typ: Option<Seq<char>>) -> SpecVariableType {
    SpecVariableType {
        ident: match typ {
            Some(t) => t,
            None => Seq::empty(),
        },
        pointer: false,
        array: false,
        array_size: 0,
    }
}

/// The type written in a variable declaration at `p`, if one is: `IDENT`, `* IDENT` (a
/// pointer) or `[ NUMBER ] IDENT` (an array of that size).
pub open spec fn parse_var_type(ts: Seq<SpecToken>, p: int) -> Result<(Option<SpecVariableType>, int), SpecParseError> {
    match tok(ts, p) {
        SpecToken::IDENTIFIER(t) => Ok((Some(named_type(Some(t))), p + 1)),
        SpecToken::ASTERISK => match tok(ts, p + 1) {
            SpecToken::IDENTIFIER(t) => Ok((
                Some(SpecVariableType { ident: t, pointer: true, array: false, array_size: 0 }),
                p + 2,
            )),
            other => Err(SpecParseError::ExpectedTypeName(other)),
        },
        SpecToken::LBRACKET => match tok(ts, p + 1) {
            SpecToken::NUMBER(n) => match consume(ts, p + 2, SpecToken::RBRACKET) {
                Ok(q) => match tok(ts, q) {
                    SpecToken::IDENTIFIER(t) => Ok((
                        Some(SpecVariableType { ident: t, pointer: false, array: true, array_size: n }),
                        q + 1,
                    )),
                    other => Err(SpecParseError::ExpectedTypeName(other)),
                },
                Err(e) => Err(e),
            },
            other => Err(SpecParseError::ExpectedArraySize(other)),
        },
        _ => Ok((None, p)),
    }
}

/// `var NAME [TYPE] (= EXPR)? ;` from `p`.
pub open spec fn parse_var_decl(ts: Seq<SpecToken>, p: int) -> PResult<SpecVariable> {
    match consume(ts, p, SpecToken::VAR) {
        Err(e) => Err(e),
        Ok(q) => match tok(ts, q) {
            SpecToken::IDENTIFIER(name) => match parse_var_type(ts, q + 1) {
                Err(e) => Err(e),
                Ok((typ, r)) => {
                    let var_type = match typ {
                        Some(vt) => vt,
                        None => named_type(None),
                    };
                    match tok(ts, r) {
                        SpecToken::ASSIGN => match parse_expr(ts, r + 1, level_none()) {
                            Ok((value, s)) => match consume(ts, s, SpecToken::SEMICOLON) {
                                Ok(u) => Ok((SpecVariable { name, var_type, value: Some(value) }, u)),
                                Err(e) => Err(e),
                            },
                            Err(e) => Err(e),
                        },
                        SpecToken::SEMICOLON => if typ is None {
                            Err(SpecParseError::CannotInferType(name))
                        } else {
                            Ok((SpecVariable { name, var_type, value: None }, r + 1))
                        },
                        _ => Err(SpecParseError::ExpectedSemicolonOrAssign(tok(ts, r))),
                    }
                },
            },
            _ => Err(SpecParseError::ExpectedIdentifier(tok(ts, q))),
        },
    }
}

/// `return EXPR ;` from `p`.
pub open spec fn parse_return_statement(ts: Seq<SpecToken>, p: int) -> PResult<SpecStatement> {
    match consume(ts, p, SpecToken::RETURN) {
        Err(e) => Err(e),
        Ok(q) => match parse_expr(ts, q, level_none()) {
            Ok((e, r)) => match consume(ts, r, SpecToken::SEMICOLON) {
                Ok(s) => Ok((SpecStatement::ReturnStatement(e), s)),
                Err(err) => Err(err),
            },
            Err(err) => Err(err),
        },
    }
}

/// `EXPR ;` from `p`.
pub open spec fn parse_expr_statement(ts: Seq<SpecToken>, p: int) -> PResult<SpecStatement> {
    match parse_expr(ts, p, level_none()) {
        Ok((e, r)) => match consume(ts, r, SpecToken::SEMICOLON) {
            Ok(s) => Ok((SpecStatement::ExpressionStatement(e), s)),
            Err(err) => Err(err),
        },
        Err(err) => Err(err),
    }
}

/// `{ STMT* }` from `p`.
pub open spec fn parse_block(ts: Seq<SpecToken>, p: int) -> PResult<Seq<SpecStatement>>
    decreases ts.len() - p, 0int,
{
    match consume(ts, p, SpecToken::LBRACE) {
        Err(e) => Err(e),
        Ok(q) => if advanced(ts, p, q) {
            parse_statements(ts, q, seq![])
        } else {
            Err(SpecParseError::NoProgress)
        },
    }
}

/// Statements up to and including the closing `}`, appended to `acc`.
pub open spec fn parse_statements(ts: Seq<SpecToken>, p: int, acc: Seq<SpecStatement>) -> PResult<Seq<SpecStatement>>
    decreases ts.len() - p, 3int,
{
    if tok(ts, p) == SpecToken::RBRACE {
        Ok((acc, p + 1))
    } else {
        match parse_statement(ts, p) {
            Ok((st, q)) => if advanced(ts, p, q) {
                parse_statements(ts, q, acc.push(st))
            } else {
                Err(SpecParseError::NoProgress)
            },
            Err(e) => Err(e),
        }
    }
}

/// One statement from `p`.
pub open spec fn parse_statement(ts: Seq<SpecToken>, p: int) -> PResult<SpecStatement>
    decreases ts.len() - p, 2int,
{
    match tok(ts, p) {
        SpecToken::RETURN => parse_return_statement(ts, p),
        SpecToken::FOR => parse_for_statement(ts, p),
        SpecToken::IF => parse_if_statement(ts, p),
        SpecToken::VAR => match parse_var_decl(ts, p) {
            Ok((v, q)) => Ok((SpecStatement::VariableDeclaration(v), q)),
            Err(e) => Err(e),
        },
        _ => parse_expr_statement(ts, p),
    }
}

/// `if EXPR BLOCK` from `p`.
pub open spec fn parse_if_statement(ts: Seq<SpecToken>, p: int) -> PResult<SpecStatement>
    decreases ts.len() - p, 1int,
{
    match consume(ts, p, SpecToken::IF) {
        Err(e) => Err(e),
        Ok(q) => match parse_expr(ts, q, level_none()) {
            Ok((cond, r)) => if advanced(ts, p, r) {
                match parse_block(ts, r) {
                    Ok((block, s)) => Ok((SpecStatement::IfStatement(cond, block), s)),
                    Err(e) => Err(e),
                }
            } else {
                Err(SpecParseError::NoProgress)
            },
            Err(e) => Err(e),
        },
    }
}

/// `for EXPR BLOCK` or `for EXPR ; EXPR ; EXPR BLOCK` from `p`.
pub open spec fn parse_for_statement(ts: Seq<SpecToken>, p: int) -> PResult<SpecStatement>
    decreases ts.len() - p, 1int,
{
    match consume(ts, p, SpecToken::FOR) {
        Err(e) => Err(e),
        Ok(q) => match parse_expr(ts, q, level_none()) {
            Err(e) => Err(e),
            Ok((expr, r)) => match tok(ts, r) {
                SpecToken::SEMICOLON => match parse_expr(ts, r + 1, level_none()) {
                    Err(e) => Err(e),
                    Ok((cond, r2)) => match consume(ts, r2, SpecToken::SEMICOLON) {
                        Err(e) => Err(e),
                        Ok(r3) => match parse_expr(ts, r3, level_none()) {
                            Err(e) => Err(e),
                            Ok((post, r4)) => if advanced(ts, p, r4) {
                                match parse_block(ts, r4) {
                                    Ok((block, r5)) => Ok((
                                        SpecStatement::ForStatement(Some(expr), cond, Some(post), block),
                                        r5,
                                    )),
                                    Err(e) => Err(e),
                                }
                            } else {
                                Err(SpecParseError::NoProgress)
                            },
                        },
                    },
                },
                SpecToken::LBRACE => if advanced(ts, p, r) {
                    match parse_block(ts, r) {
                        Ok((block, r5)) => Ok((SpecStatement::ForStatement(None, expr, None, block), r5)),
                        Err(e) => Err(e),
                    }
                } else {
                    Err(SpecParseError::NoProgress)
                },
                _ => Err(SpecParseError::ExpectedForSeparator(tok(ts, r))),
            },
        },
    }
}

/// Parameters `NAME TYPE` separated by `,`, up to (not including) `)`, appended to `acc`.
pub open spec fn parse_params(ts: Seq<SpecToken>, p: int, first: bool, acc: Seq<SpecVariable>) -> PResult<Seq<SpecVariable>>
    decreases ts.len() - p,
{
    if tok(ts, p) == SpecToken::RPAREN {
        Ok((acc, p))
    } else {
        let q = if first { Ok(p) } else { consume(ts, p, SpecToken::COMMA) };
        match q {
            Err(e) => Err(e),
            Ok(q) => match tok(ts, q) {
                SpecToken::IDENTIFIER(name) => match tok(ts, q + 1) {
                    SpecToken::IDENTIFIER(typ) => if advanced(ts, p, q + 2) {
                        parse_params(
                            ts,
                            q + 2,
                            false,
                            acc.push(SpecVariable { name, var_type: named_type(Some(typ)), value: None }),
                        )
                    } else {
                        Err(SpecParseError::NoProgress)
                    },
                    _ => Err(SpecParseError::ExpectedTypeName(tok(ts, q + 1))),
                },
                _ => Err(SpecParseError::ExpectedIdentifier(tok(ts, q))),
            },
        }
    }
}

/// Return type names separated by `,`, up to (not including) `{`, appended to `acc`.
pub open spec fn parse_return_types(ts: Seq<SpecToken>, p: int, first: bool, acc: Seq<Seq<char>>) -> PResult<Seq<Seq<char>>>
    decreases ts.len() - p,
{
    if tok(ts, p) == SpecToken::LBRACE {
        Ok((acc, p))
    } else {
        let q = if first { Ok(p) } else { consume(ts, p, SpecToken::COMMA) };
        match q {
            Err(e) => Err(e),
            Ok(q) => match tok(ts, q) {
                SpecToken::IDENTIFIER(typ) => if advanced(ts, p, q + 1) {
                    parse_return_types(ts, q + 1, false, acc.push(typ))
                } else {
                    Err(SpecParseError::NoProgress)
                },
                _ => Err(SpecParseError::ExpectedReturnType(tok(ts, q))),
            },
        }
    }
}

/// `fn NAME ( PARAMS ) RETURNS BLOCK` from `p`.
pub open spec fn parse_fn_decl(ts: Seq<SpecToken>, p: int) -> PResult<SpecDeclaration> {
    match consume(ts, p, SpecToken::FN) {
        Err(e) => Err(e),
        Ok(q) => match tok(ts, q) {
            SpecToken::IDENTIFIER(name) => match consume(ts, q + 1, SpecToken::LPAREN) {
                Err(e) => Err(e),
                Ok(r) => match parse_params(ts, r, true, seq![]) {
                    Err(e) => Err(e),
                    Ok((params, r2)) => match consume(ts, r2, SpecToken::RPAREN) {
                        Err(e) => Err(e),
                        Ok(r3) => match parse_return_types(ts, r3, true, seq![]) {
                            Err(e) => Err(e),
                            Ok((return_types, r4)) => match parse_block(ts, r4) {
                                Err(e) => Err(e),
                                Ok((stmts, r5)) => Ok((
                                    SpecDeclaration::FunctionDeclaration(SpecFunction { name, params, return_types, stmts }),
                                    r5,
                                )),
                            },
                        },
                    },
                },
            },
            _ => Err(SpecParseError::ExpectedIdentifier(tok(ts, q))),
        },
    }
}

/// A function or variable declaration from `p`.
pub open spec fn parse_decl(ts: Seq<SpecToken>, p: int) -> PResult<SpecDeclaration> {
    match tok(ts, p) {
        SpecToken::FN => parse_fn_decl(ts, p),
        SpecToken::VAR => match parse_var_decl(ts, p) {
            Ok((v, q)) => Ok((SpecDeclaration::VariableDeclaration(v), q)),
            Err(e) => Err(e),
        },
        _ => Err(SpecParseError::NoMatchingDeclaration),
    }
}

/// Declarations up to (not including) `EOF`, appended to `acc`.
pub open spec fn parse_decls(ts: Seq<SpecToken>, p: int, acc: Seq<SpecDeclaration>) -> PResult<Seq<SpecDeclaration>>
    decreases ts.len() - p,
{
    if tok(ts, p) == SpecToken::EOF {
        Ok((acc, p))
    } else {
        match parse_decl(ts, p) {
            Ok((d, q)) => if advanced(ts, p, q) {
                parse_decls(ts, q, acc.push(d))
            } else {
                Err(SpecParseError::NoProgress)
            },
            Err(e) => Err(e),
        }
    }
}

/// The program that the tokens from `p` on form.
pub open spec fn parse_program(ts: Seq<SpecToken>, p: int) -> PResult<SpecNode> {
    match parse_decls(ts, p, seq![]) {
        Ok((decls, q)) => Ok((SpecNode::Program(decls), q)),
        Err(e) => Err(e),
    }
}


// ---------------------------------------------------------------------------
// How expressions group

/// An identifier expression.
pub open spec fn ident_expr(x: Seq<char>) -> SpecExpression {
    SpecExpression::Identifier(x)
}

/// The binary expression `op(l, r)`.
pub open spec fn infix_expr(op: SpecToken, l: SpecExpression, r: SpecExpression) -> SpecExpression {
    SpecExpression::Infix(op, Box::new(l), Box::new(r))
}

/// The tokens `x o1 y o2 z ;`.
pub open spec fn three_operands(x: Seq<char>, o1: SpecToken, y: Seq<char>, o2: SpecToken, z: Seq<char>) -> Seq<SpecToken> {
    seq![
        SpecToken::IDENTIFIER(x), o1, SpecToken::IDENTIFIER(y), o2, SpecToken::IDENTIFIER(z),
        SpecToken::SEMICOLON,
    ]
}

/// Whether `t` is a comparison operator.
pub open spec fn is_comparison(t: SpecToken) -> bool {
    t is LT || t is GT || t is LEQ || t is GEQ || t is EQ || t is NEQ
}

/// The operator classes, from the loosest to the tightest binding: assignment, comparisons,
/// sums (`+`, `-`), products (`*`, `/`); `hi` belongs to a tighter class than `lo`.
pub open spec fn binds_tighter(hi: SpecToken, lo: SpecToken) -> bool {
    ||| (hi is ASTERISK || hi is SLASH) && (lo is PLUS || lo is DASH || is_comparison(lo) || lo is ASSIGN)
    ||| (hi is PLUS || hi is DASH) && (is_comparison(lo) || lo is ASSIGN)
    ||| is_comparison(hi) && lo is ASSIGN
}

/// Whether `a` and `b` belong to the same operator class.
pub open spec fn same_class(a: SpecToken, b: SpecToken) -> bool {
    ||| (a is ASTERISK || a is SLASH) && (b is ASTERISK || b is SLASH)
    ||| (a is PLUS || a is DASH) && (b is PLUS || b is DASH)
    ||| is_comparison(a) && is_comparison(b)
    ||| a is ASSIGN && b is ASSIGN
}

/// `x lo y hi z ;` with `hi` binding at least as tight as `lo`: `lo` takes `y hi z` on its right.
proof fn lemma_group_right(x: Seq<char>, lo: SpecToken, y: Seq<char>, hi: SpecToken, z: Seq<char>)
    requires
        0 < infix_level(lo) < infix_level(hi),
        lo != SpecToken::LPAREN,
        hi != SpecToken::LPAREN,
    ensures
        parse_expr(three_operands(x, lo, y, hi, z), 0, level_none())
            == Ok::<(SpecExpression, int), SpecParseError>((
            infix_expr(lo, ident_expr(x), infix_expr(hi, ident_expr(y), ident_expr(z))),
            5int,
        )),
{
    let ts = three_operands(x, lo, y, hi, z);
    let inner = infix_expr(hi, ident_expr(y), ident_expr(z));
    let whole = infix_expr(lo, ident_expr(x), inner);
    assert(tok(ts, 0) == SpecToken::IDENTIFIER(x));
    assert(tok(ts, 1) == lo);
    assert(tok(ts, 2) == SpecToken::IDENTIFIER(y));
    assert(tok(ts, 3) == hi);
    assert(tok(ts, 4) == SpecToken::IDENTIFIER(z));
    assert(tok(ts, 5) == SpecToken::SEMICOLON);
    assert(parse_infix_loop(ts, ident_expr(z), 5, infix_level(hi)) == Ok::<(SpecExpression, int), SpecParseError>((ident_expr(z), 5int)));
    assert(parse_expr(ts, 4, infix_level(hi)) == Ok::<(SpecExpression, int), SpecParseError>((ident_expr(z), 5int)));
    assert(parse_infix(ts, ident_expr(y), 3) == Ok::<(SpecExpression, int), SpecParseError>((inner, 5int)));
    assert(parse_infix_loop(ts, inner, 5, infix_level(lo)) == Ok::<(SpecExpression, int), SpecParseError>((inner, 5int)));
    assert(parse_infix_loop(ts, ident_expr(y), 3, infix_level(lo)) == Ok::<(SpecExpression, int), SpecParseError>((inner, 5int)));
    assert(parse_expr(ts, 2, infix_level(lo)) == Ok::<(SpecExpression, int), SpecParseError>((inner, 5int)));
    assert(parse_infix(ts, ident_expr(x), 1) == Ok::<(SpecExpression, int), SpecParseError>((whole, 5int)));
    assert(parse_infix_loop(ts, whole, 5, level_none()) == Ok::<(SpecExpression, int), SpecParseError>((whole, 5int)));
    assert(parse_infix_loop(ts, ident_expr(x), 1, level_none()) == Ok::<(SpecExpression, int), SpecParseError>((whole, 5int)));
}

/// `x hi y lo z ;` with `hi` binding at least as tight as `lo`: `hi` takes `x` and `y`, and `lo`
/// takes that and `z`.
proof fn lemma_group_left(x: Seq<char>, hi: SpecToken, y: Seq<char>, lo: SpecToken, z: Seq<char>)
    requires
        0 < infix_level(lo) <= infix_level(hi),
        lo != SpecToken::LPAREN,
        hi != SpecToken::LPAREN,
    ensures
        parse_expr(three_operands(x, hi, y, lo, z), 0, level_none())
            == Ok::<(SpecExpression, int), SpecParseError>((
            infix_expr(lo, infix_expr(hi, ident_expr(x), ident_expr(y)), ident_expr(z)),
            5int,
        )),
{
    let ts = three_operands(x, hi, y, lo, z);
    let first = infix_expr(hi, ident_expr(x), ident_expr(y));
    let whole = infix_expr(lo, first, ident_expr(z));
    assert(tok(ts, 0) == SpecToken::IDENTIFIER(x));
    assert(tok(ts, 1) == hi);
    assert(tok(ts, 2) == SpecToken::IDENTIFIER(y));
    assert(tok(ts, 3) == lo);
    assert(tok(ts, 4) == SpecToken::IDENTIFIER(z));
    assert(tok(ts, 5) == SpecToken::SEMICOLON);
    assert(parse_infix_loop(ts, ident_expr(y), 3, infix_level(hi)) == Ok::<(SpecExpression, int), SpecParseError>((ident_expr(y), 3int)));
    assert(parse_expr(ts, 2, infix_level(hi)) == Ok::<(SpecExpression, int), SpecParseError>((ident_expr(y), 3int)));
    assert(parse_infix(ts, ident_expr(x), 1) == Ok::<(SpecExpression, int), SpecParseError>((first, 3int)));
    assert(parse_infix_loop(ts, ident_expr(z), 5, infix_level(lo)) == Ok::<(SpecExpression, int), SpecParseError>((ident_expr(z), 5int)));
    assert(parse_expr(ts, 4, infix_level(lo)) == Ok::<(SpecExpression, int), SpecParseError>((ident_expr(z), 5int)));
    assert(parse_infix(ts, first, 3) == Ok::<(SpecExpression, int), SpecParseError>((whole, 5int)));
    assert(parse_infix_loop(ts, whole, 5, level_none()) == Ok::<(SpecExpression, int), SpecParseError>((whole, 5int)));
    assert(parse_infix_loop(ts, first, 3, level_none()) == Ok::<(SpecExpression, int), SpecParseError>((whole, 5int)));
    assert(parse_infix_loop(ts, ident_expr(x), 1, level_none()) == Ok::<(SpecExpression, int), SpecParseError>((whole, 5int)));
}

/// Operators of a tighter class bind tighter: products (`*`, `/`) before sums (`+`, `-`), sums
/// before comparisons, comparisons before assignment. So `x lo y hi z` groups as
/// `x lo (y hi z)` and `x hi y lo z` as `(x hi y) lo z`; `a + b / c` is `a + (b / c)`.
pub proof fn law_tighter_operator_binds_first(x: Seq<char>, y: Seq<char>, z: Seq<char>, hi: SpecToken, lo: SpecToken)
    requires
        binds_tighter(hi, lo),
    ensures
        parse_expr(three_operands(x, lo, y, hi, z), 0, level_none())
            == Ok::<(SpecExpression, int), SpecParseError>((
            infix_expr(lo, ident_expr(x), infix_expr(hi, ident_expr(y), ident_expr(z))),
            5int,
        )),
        parse_expr(three_operands(x, hi, y, lo, z), 0, level_none())
            == Ok::<(SpecExpression, int), SpecParseError>((
            infix_expr(lo, infix_expr(hi, ident_expr(x), ident_expr(y)), ident_expr(z)),
            5int,
        )),
{
    lemma_group_right(x, lo, y, hi, z);
    lemma_group_left(x, hi, y, lo, z);
}

/// Operators of one class group to the left: `x a y b z` is `(x a y) b z`, as `a - b - c` is
/// `(a - b) - c`.
pub proof fn law_same_class_groups_left(x: Seq<char>, y: Seq<char>, z: Seq<char>, a: SpecToken, b: SpecToken)
    requires
        same_class(a, b),
    ensures
        parse_expr(three_operands(x, a, y, b, z), 0, level_none())
            == Ok::<(SpecExpression, int), SpecParseError>((
            infix_expr(b, infix_expr(a, ident_expr(x), ident_expr(y)), ident_expr(z)),
            5int,
        )),
{
    lemma_group_left(x, a, y, b, z);
}

/// A prefix operator binds tighter than every binary operator: `op x bin y ;` is
/// `(op x) bin y`, as `-a + b` is `(-a) + b`.
pub proof fn law_prefix_binds_tightest(op: SpecToken, x: Seq<char>, bin: SpecToken, y: Seq<char>)
    requires
        op is DASH || op is TILDE || op is BANG || op is ASTERISK || op is AMPERSAND,
        is_comparison(bin) || bin is PLUS || bin is DASH || bin is ASTERISK || bin is SLASH || bin is ASSIGN,
    ensures
        parse_expr(
            seq![op, SpecToken::IDENTIFIER(x), bin, SpecToken::IDENTIFIER(y), SpecToken::SEMICOLON],
            0,
            level_none(),
        ) == Ok::<(SpecExpression, int), SpecParseError>((
            infix_expr(bin, SpecExpression::Prefix(op, Box::new(ident_expr(x))), ident_expr(y)),
            4int,
        )),
{
    let ts = seq![op, SpecToken::IDENTIFIER(x), bin, SpecToken::IDENTIFIER(y), SpecToken::SEMICOLON];
    let neg = SpecExpression::Prefix(op, Box::new(ident_expr(x)));
    let whole = infix_expr(bin, neg, ident_expr(y));
    assert(tok(ts, 0) == op);
    assert(tok(ts, 1) == SpecToken::IDENTIFIER(x));
    assert(tok(ts, 2) == bin);
    assert(tok(ts, 3) == SpecToken::IDENTIFIER(y));
    assert(tok(ts, 4) == SpecToken::SEMICOLON);
    assert(parse_infix_loop(ts, ident_expr(x), 2, level_prefix()) == Ok::<(SpecExpression, int), SpecParseError>((ident_expr(x), 2int)));
    assert(parse_expr(ts, 1, level_prefix()) == Ok::<(SpecExpression, int), SpecParseError>((ident_expr(x), 2int)));
    assert(parse_infix_loop(ts, ident_expr(y), 4, infix_level(bin)) == Ok::<(SpecExpression, int), SpecParseError>((ident_expr(y), 4int)));
    assert(parse_expr(ts, 3, infix_level(bin)) == Ok::<(SpecExpression, int), SpecParseError>((ident_expr(y), 4int)));
    assert(parse_infix(ts, neg, 2) == Ok::<(SpecExpression, int), SpecParseError>((whole, 4int)));
    assert(parse_infix_loop(ts, whole, 4, level_none()) == Ok::<(SpecExpression, int), SpecParseError>((whole, 4int)));
    assert(parse_infix_loop(ts, neg, 2, level_none()) == Ok::<(SpecExpression, int), SpecParseError>((whole, 4int)));
}

/// A literal (a number, an identifier, `true` or `false`) followed by `;` parses as one
/// expression that ends at the `;` and prints as the literal's source text.
pub proof fn law_literal_prints_as_source(ts: Seq<SpecToken>, p: int, prec: nat)
    requires
        0 <= p,
        p + 1 < ts.len(),
        tok(ts, p) is NUMBER || tok(ts, p) is IDENTIFIER || tok(ts, p) is TRUE || tok(ts, p) is FALSE,
        tok(ts, p + 1) == SpecToken::SEMICOLON,
    ensures
        parse_expr(ts, p, prec) matches Ok((e, q)) && q == p + 1 && expr_text(e) == token_literal(tok(ts, p)),
{
    let t = tok(ts, p);
    let e = match t {
        SpecToken::NUMBER(n) => SpecExpression::Number(n),
        SpecToken::IDENTIFIER(s) => SpecExpression::Identifier(s),
        SpecToken::TRUE => SpecExpression::Bool(true),
        _ => SpecExpression::Bool(false),
    };
    assert(parse_infix_loop(ts, e, p + 1, prec) == Ok::<(SpecExpression, int), SpecParseError>((e, p + 1)));
}

// ---------------------------------------------------------------------------
// Every successful step consumes at least one token and stays within the tokens.

pub proof fn lemma_expr_progress(ts: Seq<SpecToken>, p: int, prec: nat)
    requires
        0 <= p <= ts.len(),
    ensures
        parse_expr(ts, p, prec) matches Ok((_, q)) ==> advanced(ts, p, q),
    decreases ts.len() - p, 3int,
{
    let t = tok(ts, p);
    match t {
        SpecToken::IDENTIFIER(s) => lemma_infix_loop_progress(ts, SpecExpression::Identifier(s), p + 1, prec),
        SpecToken::NUMBER(n) => lemma_infix_loop_progress(ts, SpecExpression::Number(n), p + 1, prec),
        SpecToken::TRUE => lemma_infix_loop_progress(ts, SpecExpression::Bool(true), p + 1, prec),
        SpecToken::FALSE => lemma_infix_loop_progress(ts, SpecExpression::Bool(false), p + 1, prec),
        SpecToken::LPAREN => {
            lemma_expr_progress(ts, p + 1, level_none());
            match parse_expr(ts, p + 1, level_none()) {
                Ok((inner, q)) => {
                    if advanced(ts, p, q) && tok(ts, q) == SpecToken::RPAREN {
                        lemma_infix_loop_progress(ts, inner, q + 1, prec);
                    }
                },
                Err(_) => {},
            }
        },
        SpecToken::DASH | SpecToken::TILDE | SpecToken::BANG | SpecToken::ASTERISK | SpecToken::AMPERSAND => {
            lemma_expr_progress(ts, p + 1, level_prefix());
            match parse_expr(ts, p + 1, level_prefix()) {
                Ok((operand, q)) => {
                    if advanced(ts, p, q) {
                        lemma_infix_loop_progress(ts, SpecExpression::Prefix(t, Box::new(operand)), q, prec);
                    }
                },
                Err(_) => {},
            }
        },
        _ => {},
    }
}

pub proof fn lemma_infix_loop_progress(ts: Seq<SpecToken>, left: SpecExpression, p: int, prec: nat)
    requires
        0 <= p <= ts.len(),
    ensures
        parse_infix_loop(ts, left, p, prec) matches Ok((_, q)) ==> p <= q <= ts.len(),
    decreases ts.len() - p, 2int,
{
    let t = tok(ts, p);
    if t != SpecToken::SEMICOLON && prec < infix_level(t) {
        lemma_infix_progress(ts, left, p);
        match parse_infix(ts, left, p) {
            Ok((e, q)) => {
                if advanced(ts, p, q) {
                    lemma_infix_loop_progress(ts, e, q, prec);
                }
            },
            Err(_) => {},
        }
    }
}

pub proof fn lemma_infix_progress(ts: Seq<SpecToken>, left: SpecExpression, p: int)
    requires
        0 <= p <= ts.len(),
    ensures
        parse_infix(ts, left, p) matches Ok((_, q)) ==> advanced(ts, p, q),
    decreases ts.len() - p, 1int,
{
    let t = tok(ts, p);
    if t == SpecToken::LPAREN {
        if left is Identifier && p < ts.len() {
            lemma_call_args_progress(ts, p + 1, true, seq![]);
        }
    } else if p < ts.len() {
        lemma_expr_progress(ts, p + 1, infix_level(t));
    }
}

pub proof fn lemma_call_args_progress(ts: Seq<SpecToken>, p: int, first: bool, acc: Seq<SpecExpression>)
    requires
        0 <= p <= ts.len(),
    ensures
        parse_call_args(ts, p, first, acc) matches Ok((_, q)) ==> advanced(ts, p, q),
    decreases ts.len() - p, 4int,
{
    if tok(ts, p) != SpecToken::RPAREN {
        let q = if first { Ok(p) } else { consume(ts, p, SpecToken::COMMA) };
        match q {
            Err(_) => {},
            Ok(q) => {
                if p <= q <= ts.len() {
                    lemma_expr_progress(ts, q, level_none());
                    match parse_expr(ts, q, level_none()) {
                        Ok((e, r)) => {
                            if advanced(ts, p, r) {
                                lemma_call_args_progress(ts, r, false, acc.push(e));
                            }
                        },
                        Err(_) => {},
                    }
                }
            },
        }
    }
}

pub proof fn lemma_var_decl_progress(ts: Seq<SpecToken>, p: int)
    requires
        0 <= p <= ts.len(),
    ensures
        parse_var_decl(ts, p) matches Ok((_, q)) ==> advanced(ts, p, q),
{
    if let Ok(q) = consume(ts, p, SpecToken::VAR) {
        if let SpecToken::IDENTIFIER(name) = tok(ts, q) {
            if let Ok((_, r)) = parse_var_type(ts, q + 1) {
                assert(q + 1 <= r <= ts.len());
                if tok(ts, r) == SpecToken::ASSIGN {
                    lemma_expr_progress(ts, r + 1, level_none());
                }
            }
        }
    }
}

pub proof fn lemma_block_progress(ts: Seq<SpecToken>, p: int)
    requires
        0 <= p <= ts.len(),
    ensures
        parse_block(ts, p) matches Ok((_, q)) ==> advanced(ts, p, q),
    decreases ts.len() - p, 0int,
{
    if let Ok(q) = consume(ts, p, SpecToken::LBRACE) {
        if advanced(ts, p, q) {
            lemma_statements_progress(ts, q, seq![]);
        }
    }
}

pub proof fn lemma_statements_progress(ts: Seq<SpecToken>, p: int, acc: Seq<SpecStatement>)
    requires
        0 <= p <= ts.len(),
    ensures
        parse_statements(ts, p, acc) matches Ok((_, q)) ==> advanced(ts, p, q),
    decreases ts.len() - p, 3int,
{
    if tok(ts, p) != SpecToken::RBRACE {
        lemma_statement_progress(ts, p);
        if let Ok((st, q)) = parse_statement(ts, p) {
            if advanced(ts, p, q) {
                lemma_statements_progress(ts, q, acc.push(st));
            }
        }
    }
}

pub proof fn lemma_statement_progress(ts: Seq<SpecToken>, p: int)
    requires
        0 <= p <= ts.len(),
    ensures
        parse_statement(ts, p) matches Ok((_, q)) ==> advanced(ts, p, q),
    decreases ts.len() - p, 2int,
{
    match tok(ts, p) {
        SpecToken::RETURN => {
            lemma_expr_progress(ts, p + 1, level_none());
        },
        SpecToken::FOR => lemma_for_progress(ts, p),
        SpecToken::IF => lemma_if_progress(ts, p),
        SpecToken::VAR => lemma_var_decl_progress(ts, p),
        _ => {
            lemma_expr_progress(ts, p, level_none());
        },
    }
}

pub proof fn lemma_if_progress(ts: Seq<SpecToken>, p: int)
    requires
        0 <= p <= ts.len(),
    ensures
        parse_if_statement(ts, p) matches Ok((_, q)) ==> advanced(ts, p, q),
    decreases ts.len() - p, 1int,
{
    if let Ok(q) = consume(ts, p, SpecToken::IF) {
        lemma_expr_progress(ts, q, level_none());
        if let Ok((cond, r)) = parse_expr(ts, q, level_none()) {
            if advanced(ts, p, r) {
                lemma_block_progress(ts, r);
            }
        }
    }
}

pub proof fn lemma_for_progress(ts: Seq<SpecToken>, p: int)
    requires
        0 <= p <= ts.len(),
    ensures
        parse_for_statement(ts, p) matches Ok((_, q)) ==> advanced(ts, p, q),
    decreases ts.len() - p, 1int,
{
    if let Ok(q) = consume(ts, p, SpecToken::FOR) {
        lemma_expr_progress(ts, q, level_none());
        if let Ok((expr, r)) = parse_expr(ts, q, level_none()) {
            if tok(ts, r) == SpecToken::SEMICOLON {
                lemma_expr_progress(ts, r + 1, level_none());
                if let Ok((cond, r2)) = parse_expr(ts, r + 1, level_none()) {
                    if let Ok(r3) = consume(ts, r2, SpecToken::SEMICOLON) {
                        lemma_expr_progress(ts, r3, level_none());
                        if let Ok((post, r4)) = parse_expr(ts, r3, level_none()) {
                            if advanced(ts, p, r4) {
                                lemma_block_progress(ts, r4);
                            }
                        }
                    }
                }
            } else if tok(ts, r) == SpecToken::LBRACE {
                if advanced(ts, p, r) {
                    lemma_block_progress(ts, r);
                }
            }
        }
    }
}

pub proof fn lemma_params_progress(ts: Seq<SpecToken>, p: int, first: bool, acc: Seq<SpecVariable>)
    requires
        0 <= p <= ts.len(),
    ensures
        parse_params(ts, p, first, acc) matches Ok((_, q)) ==> p <= q <= ts.len(),
    decreases ts.len() - p,
{
    if tok(ts, p) != SpecToken::RPAREN {
        let q = if first { Ok(p) } else { consume(ts, p, SpecToken::COMMA) };
        if let Ok(q) = q {
            if let SpecToken::IDENTIFIER(name) = tok(ts, q) {
                if let SpecToken::IDENTIFIER(typ) = tok(ts, q + 1) {
                    if advanced(ts, p, q + 2) {
                        lemma_params_progress(
                            ts,
                            q + 2,
                            false,
                            acc.push(SpecVariable { name, var_type: named_type(Some(typ)), value: None }),
                        );
                    }
                }
            }
        }
    }
}

pub proof fn lemma_return_types_progress(ts: Seq<SpecToken>, p: int, first: bool, acc: Seq<Seq<char>>)
    requires
        0 <= p <= ts.len(),
    ensures
        parse_return_types(ts, p, first, acc) matches Ok((_, q)) ==> p <= q <= ts.len(),
    decreases ts.len() - p,
{
    if tok(ts, p) != SpecToken::LBRACE {
        let q = if first { Ok(p) } else { consume(ts, p, SpecToken::COMMA) };
        if let Ok(q) = q {
            if let SpecToken::IDENTIFIER(typ) = tok(ts, q) {
                if advanced(ts, p, q + 1) {
                    lemma_return_types_progress(ts, q + 1, false, acc.push(typ));
                }
            }
        }
    }
}

pub proof fn lemma_decl_progress(ts: Seq<SpecToken>, p: int)
    requires
        0 <= p <= ts.len(),
    ensures
        parse_decl(ts, p) matches Ok((_, q)) ==> advanced(ts, p, q),
{
    match tok(ts, p) {
        SpecToken::FN => {
            if let Ok(q) = consume(ts, p, SpecToken::FN) {
                if let SpecToken::IDENTIFIER(name) = tok(ts, q) {
                    if let Ok(r) = consume(ts, q + 1, SpecToken::LPAREN) {
                        lemma_params_progress(ts, r, true, seq![]);
                        if let Ok((params, r2)) = parse_params(ts, r, true, seq![]) {
                            if let Ok(r3) = consume(ts, r2, SpecToken::RPAREN) {
                                lemma_return_types_progress(ts, r3, true, seq![]);
                                if let Ok((rts, r4)) = parse_return_types(ts, r3, true, seq![]) {
                                    lemma_block_progress(ts, r4);
                                }
                            }
                        }
                    }
                }
            }
        },
        SpecToken::VAR => lemma_var_decl_progress(ts, p),
        _ => {},
    }
}

pub proof fn lemma_decls_progress(ts: Seq<SpecToken>, p: int, acc: Seq<SpecDeclaration>)
    requires
        0 <= p <= ts.len(),
    ensures
        parse_decls(ts, p, acc) matches Ok((_, q)) ==> p <= q <= ts.len() && tok(ts, q) == SpecToken::EOF,
    decreases ts.len() - p,
{
    if tok(ts, p) != SpecToken::EOF {
        lemma_decl_progress(ts, p);
        if let Ok((d, q)) = parse_decl(ts, p) {
            if advanced(ts, p, q) {
                lemma_decls_progress(ts, q, acc.push(d));
            }
        }
    }
}


// ---------------------------------------------------------------------------
// The parser

/// Why the tokens do not form a program.
pub enum ParseError {
    /// The first token was expected, the second was found.
    Expected(Token, Token),
    ExpectedIdentifier(Token),
    ExpectedTypeName(Token),
    ExpectedReturnType(Token),
    NoMatchingDeclaration,
    CannotInferType(String),
    ExpectedSemicolonOrAssign(Token),
    ExpectedForSeparator(Token),
    ExpectedPrefixExpression(Token),
    ExpectedCallee(Expression),
    ExpectedArraySize(Token),
}

impl View for ParseError {
    type V = SpecParseError;

    open spec fn view(&self) -> SpecParseError {
        match self {
            ParseError::Expected(a, b) => SpecParseError::Expected(a@, b@),
            ParseError::ExpectedIdentifier(t) => SpecParseError::ExpectedIdentifier(t@),
            ParseError::ExpectedTypeName(t) => SpecParseError::ExpectedTypeName(t@),
            ParseError::ExpectedReturnType(t) => SpecParseError::ExpectedReturnType(t@),
            ParseError::NoMatchingDeclaration => SpecParseError::NoMatchingDeclaration,
            ParseError::CannotInferType(n) => SpecParseError::CannotInferType(n@),
            ParseError::ExpectedSemicolonOrAssign(t) => SpecParseError::ExpectedSemicolonOrAssign(t@),
            ParseError::ExpectedForSeparator(t) => SpecParseError::ExpectedForSeparator(t@),
            ParseError::ExpectedPrefixExpression(t) => SpecParseError::ExpectedPrefixExpression(t@),
            ParseError::ExpectedCallee(e) => SpecParseError::ExpectedCallee(e@),
            ParseError::ExpectedArraySize(t) => SpecParseError::ExpectedArraySize(t@),
        }
    }
}

#[derive(Clone, Copy)]
enum Precedence {
    NONE,
    ASSIGN,
    CONDITIONAL,
    SUM,
    PRODUCT,
    PREFIX,
    POSTFIX,
    CALL,
}

impl Precedence {
    spec fn value(self) -> nat {
        match self {
            Precedence::NONE => 0,
            Precedence::ASSIGN => 1,
            Precedence::CONDITIONAL => 2,
            Precedence::SUM => 3,
            Precedence::PRODUCT => 4,
            Precedence::PREFIX => 5,
            Precedence::POSTFIX => 6,
            Precedence::CALL => 7,
        }
    }

    fn level(&self) -> (r: u8)
        ensures
            r == self.value(),
    {
        match self {
            Precedence::NONE => 0,
            Precedence::ASSIGN => 1,
            Precedence::CONDITIONAL => 2,
            Precedence::SUM => 3,
            Precedence::PRODUCT => 4,
            Precedence::PREFIX => 5,
            Precedence::POSTFIX => 6,
            Precedence::CALL => 7,
        }
    }
}

fn get_infix_precedence(tok: &Token) -> (p: Precedence)
    ensures
        p.value() == infix_level(tok@),
{
    match tok {
        Token::ASSIGN => Precedence::ASSIGN,
        Token::PLUS | Token::DASH => Precedence::SUM,
        Token::ASTERISK | Token::SLASH => Precedence::PRODUCT,
        Token::LT | Token::LEQ | Token::GT | Token::GEQ | Token::EQ | Token::NEQ => Precedence::CONDITIONAL,
        Token::LPAREN => Precedence::CALL,
        _ => Precedence::NONE,
    }
}

fn type_named(typ: Option<String>) -> (t: VariableType)
    ensures
        t@ == named_type(match typ { Some(s) => Some(s@), None => None }),
{
    let ident = match typ {
        Some(s) => s,
        None => String::new(),
    };
    VariableType { ident, pointer: false, array: false, array_size: 0 }
}

/// Parses a vector of tokens into a program.
pub struct Parser {
    tokens: Vec<Token>,
    curr_token: Token,
    peek_token: Token,
    index: usize,
    symbol_tables: Vec<SymbolTable>,
}

impl Parser {
    /// The views of the tokens.
    pub closed spec fn toks(&self) -> Seq<SpecToken> {
        tokens_view(self.tokens@)
    }

    /// The position of the current token.
    pub closed spec fn pos(&self) -> int {
        self.index - 2
    }

    /// The current and next tokens are those at the position and after it.
    pub closed spec fn wf(&self) -> bool {
        &&& 2 <= self.index
        &&& self.index - 2 <= self.tokens@.len()
        &&& self.tokens@.len() + 2 < usize::MAX
        &&& self.curr_token@ == tok(self.toks(), self.index - 2)
        &&& self.peek_token@ == tok(self.toks(), self.index - 1)
    }

    /// A parser at the first of `tokens`.
    pub fn new(tokens: Vec<Token>) -> (parser: Self)
        requires
            tokens@.len() + 2 < usize::MAX,
        ensures
            parser.wf(),
            parser.toks() == tokens_view(tokens@),
            parser.pos() == 0,
    {
        let mut parser = Parser {
            tokens,
            curr_token: Token::UNKNOWN,
            peek_token: Token::UNKNOWN,
            index: 0,
            symbol_tables: Vec::new(),
        };

        parser.advance();
        parser.advance();

        parser
    }

    fn advance(&mut self)
        requires
            old(self).index <= old(self).tokens@.len() + 1,
            old(self).tokens@.len() + 2 < usize::MAX,
        ensures
            final(self).tokens == old(self).tokens,
            final(self).curr_token == old(self).peek_token,
            final(self).peek_token@ == tok(old(self).toks(), old(self).index as int),
            final(self).index == old(self).index + 1,
            old(self).wf() && old(self).curr_token@ != SpecToken::EOF ==> final(self).wf()
                && final(self).pos() == old(self).pos() + 1,
    {
        self.curr_token = self.peek_token.clone();
        self.peek_token = if self.index < self.tokens.len() {
            self.tokens[self.index].clone()
        } else {
            Token::EOF
        };
        self.index = self.index + 1;
    }

    /// Steps over the current token, which is not `EOF`.
    fn step(&mut self)
        requires
            old(self).wf(),
            old(self).curr_token@ != SpecToken::EOF,
        ensures
            final(self).wf(),
            final(self).toks() == old(self).toks(),
            final(self).pos() == old(self).pos() + 1,
    {
        self.advance();
    }

    fn consume(&mut self, tok: Token) -> (r: Result<(), ParseError>)
        requires
            old(self).wf(),
            tok@ != SpecToken::EOF,
        ensures
            final(self).wf(),
            final(self).toks() == old(self).toks(),
            match consume(old(self).toks(), old(self).pos(), tok@) {
                Ok(q) => r is Ok && final(self).pos() == q,
                Err(e) => r matches Err(x) && x@ == e,
            },
    {
        if self.curr_token.same(&tok) {
            self.step();
            Ok(())
        } else {
            Err(ParseError::Expected(tok, self.curr_token.clone()))
        }
    }

    fn at_semicolon(&self) -> (r: bool)
        ensures
            r == (self.curr_token@ == SpecToken::SEMICOLON),
    {
        match self.curr_token {
            Token::SEMICOLON => true,
            _ => false,
        }
    }

    fn at_rparen(&self) -> (r: bool)
        ensures
            r == (self.curr_token@ == SpecToken::RPAREN),
    {
        match self.curr_token {
            Token::RPAREN => true,
            _ => false,
        }
    }

    fn at_lparen(&self) -> (r: bool)
        ensures
            r == (self.curr_token@ == SpecToken::LPAREN),
    {
        match self.curr_token {
            Token::LPAREN => true,
            _ => false,
        }
    }

    fn at_lbrace(&self) -> (r: bool)
        ensures
            r == (self.curr_token@ == SpecToken::LBRACE),
    {
        match self.curr_token {
            Token::LBRACE => true,
            _ => false,
        }
    }

    fn at_rbrace(&self) -> (r: bool)
        ensures
            r == (self.curr_token@ == SpecToken::RBRACE),
    {
        match self.curr_token {
            Token::RBRACE => true,
            _ => false,
        }
    }

    fn at_eof(&self) -> (r: bool)
        ensures
            r == (self.curr_token@ == SpecToken::EOF),
    {
        match self.curr_token {
            Token::EOF => true,
            _ => false,
        }
    }

    fn parse_expr(&mut self, precedence: Precedence) -> (r: Result<Expression, ParseError>)
        requires
            old(self).wf(),
        ensures
            final(self).wf(),
            final(self).toks() == old(self).toks(),
            match parse_expr(old(self).toks(), old(self).pos(), precedence.value()) {
                Ok((e, q)) => r matches Ok(x) && x@ == e && final(self).pos() == q,
                Err(err) => r matches Err(x) && x@ == err,
            },
        decreases old(self).toks().len() - old(self).pos(), 3int,
    {
        let ghost ts = self.toks();
        let ghost p0 = self.pos();
        let ghost prec = precedence.value();
        let mut left = match self.curr_token {
            Token::IDENTIFIER(_) => self.parse_ident_expr(),
            Token::NUMBER(_) => self.parse_num_expr(),
            Token::TRUE => {
                self.step();
                Expression::Bool(true)
            },
            Token::FALSE => {
                self.step();
                Expression::Bool(false)
            },
            Token::LPAREN => {
                proof { lemma_expr_progress(ts, p0 + 1, level_none()); }
                self.step();
                let inner = match self.parse_expr(Precedence::NONE) {
                    Ok(e) => e,
                    Err(e) => { return Err(e); },
                };
                match self.consume(Token::RPAREN) {
                    Ok(()) => {},
                    Err(e) => { return Err(e); },
                }
                inner
            },
            Token::DASH | Token::TILDE | Token::BANG | Token::ASTERISK | Token::AMPERSAND => {
                proof { lemma_expr_progress(ts, p0 + 1, level_prefix()); }
                match self.parse_prefix_expr() {
                    Ok(e) => e,
                    Err(e) => { return Err(e); },
                }
            },
            _ => { return Err(ParseError::ExpectedPrefixExpression(self.curr_token.clone())); },
        };
        while !self.at_semicolon() && precedence.level() < get_infix_precedence(&self.curr_token).level()
            invariant
                self.wf(),
                self.toks() == ts,
                ts == old(self).toks(),
                p0 == old(self).pos(),
                p0 < self.pos() <= ts.len(),
                prec == precedence.value(),
                parse_expr(ts, p0, prec) == parse_infix_loop(ts, left@, self.pos(), prec),
            decreases ts.len() - self.pos(),
        {
            proof { lemma_infix_progress(ts, left@, self.pos()); }
            left = match self.parse_infix_expr(left) {
                Ok(e) => e,
                Err(e) => { return Err(e); },
            };
        }
        Ok(left)
    }

    fn parse_ident_expr(&mut self) -> (e: Expression)
        requires
            old(self).wf(),
            old(self).curr_token is IDENTIFIER,
        ensures
            final(self).wf(),
            final(self).toks() == old(self).toks(),
            final(self).pos() == old(self).pos() + 1,
            tok(old(self).toks(), old(self).pos()) == SpecToken::IDENTIFIER(e@->Identifier_0),
            e@ is Identifier,
    {
        let ident = match &self.curr_token {
            Token::IDENTIFIER(s) => s.clone(),
            _ => String::new(),
        };

        self.step();

        Expression::Identifier(ident)
    }

    fn parse_num_expr(&mut self) -> (e: Expression)
        requires
            old(self).wf(),
            old(self).curr_token is NUMBER,
        ensures
            final(self).wf(),
            final(self).toks() == old(self).toks(),
            final(self).pos() == old(self).pos() + 1,
            tok(old(self).toks(), old(self).pos()) == SpecToken::NUMBER(e@->Number_0),
            e@ is Number,
    {
        let num = match self.curr_token {
            Token::NUMBER(x) => x,
            _ => 0,
        };
        self.step();

        Expression::Number(num)
    }

    fn parse_prefix_expr(&mut self) -> (r: Result<Expression, ParseError>)
        requires
            old(self).wf(),
            old(self).curr_token is DASH || old(self).curr_token is TILDE || old(self).curr_token is BANG
                || old(self).curr_token is ASTERISK || old(self).curr_token is AMPERSAND,
        ensures
            final(self).wf(),
            final(self).toks() == old(self).toks(),
            match parse_expr(old(self).toks(), old(self).pos() + 1, level_prefix()) {
                Ok((e, q)) => r matches Ok(x) && x@ == SpecExpression::Prefix(
                    tok(old(self).toks(), old(self).pos()),
                    Box::new(e),
                ) && final(self).pos() == q,
                Err(err) => r matches Err(x) && x@ == err,
            },
        decreases old(self).toks().len() - old(self).pos(), 2int,
    {
        let op = self.curr_token.clone();
        self.step();
        let operand = match self.parse_expr(Precedence::PREFIX) {
            Ok(e) => Box::new(e),
            Err(e) => { return Err(e); },
        };

        Ok(Expression::Prefix(PrefixExpression { op, operand }))
    }

    fn parse_infix_expr(&mut self, left: Expression) -> (r: Result<Expression, ParseError>)
        requires
            old(self).wf(),
            infix_level(old(self).curr_token@) > 0,
        ensures
            final(self).wf(),
            final(self).toks() == old(self).toks(),
            match parse_infix(old(self).toks(), left@, old(self).pos()) {
                Ok((e, q)) => r matches Ok(x) && x@ == e && final(self).pos() == q,
                Err(err) => r matches Err(x) && x@ == err,
            },
        decreases old(self).toks().len() - old(self).pos(), 1int,
    {
        let ghost ts = self.toks();
        let ghost p0 = self.pos();
        let ghost lv = left@;
        if self.at_lparen() {
            let name = match left {
                Expression::Identifier(ident) => ident,
                _ => { return Err(ParseError::ExpectedCallee(left)); },
            };
            self.step();

            let mut args: Vec<Expression> = Vec::new();
            let mut first = true;
            assert(exprs_view(args@) =~= Seq::<SpecExpression>::empty());
            while !self.at_rparen()
                invariant
                    self.wf(),
                    self.toks() == ts,
                    ts == old(self).toks(),
                    p0 == old(self).pos(),
                    lv == SpecExpression::Identifier(name@),
                    lv == left@,
                    tok(ts, p0) == SpecToken::LPAREN,
                    p0 < ts.len(),
                    parse_infix(ts, lv, p0) == match parse_call_args(ts, p0 + 1, true, seq![]) {
                        Ok((args, q)) => Ok((SpecExpression::Call(name@, args), q)),
                        Err(e) => Err(e),
                    },
                    p0 < self.pos() <= ts.len(),
                    first ==> self.pos() == p0 + 1,
                    parse_call_args(ts, p0 + 1, true, seq![]) == parse_call_args(ts, self.pos(), first, exprs_view(args@)),
                decreases ts.len() - self.pos(),
            {
                let ghost q = self.pos();
                if !first {
                    match self.consume(Token::COMMA) {
                        Ok(()) => {},
                        Err(e) => { return Err(e); },
                    }
                }
                proof { lemma_expr_progress(ts, self.pos(), level_none()); }
                let expr = match self.parse_expr(Precedence::NONE) {
                    Ok(e) => e,
                    Err(e) => { return Err(e); },
                };
                proof { lemma_exprs_view_push(args@, expr); }
                args.push(expr);
                first = false;
            }
            self.step();

            Ok(Expression::Call(CallExpression { func: name, args }))
        } else {
            let op = self.curr_token.clone();
            self.step();
            let right = match self.parse_expr(get_infix_precedence(&op)) {
                Ok(e) => e,
                Err(e) => { return Err(e); },
            };

            Ok(Expression::Infix(InfixExpression { op, left: Box::new(left), right: Box::new(right) }))
        }
    }

    /// The identifier at the current position; otherwise the token found there.
    fn expect_identifier(&mut self) -> (r: Result<String, Token>)
        requires
            old(self).wf(),
        ensures
            final(self).wf(),
            final(self).toks() == old(self).toks(),
            match tok(old(self).toks(), old(self).pos()) {
                SpecToken::IDENTIFIER(s) => r matches Ok(x) && x@ == s && final(self).pos() == old(self).pos() + 1,
                t => r matches Err(x) && x@ == t,
            },
    {
        let ident = match &self.curr_token {
            Token::IDENTIFIER(ident) => ident.clone(),
            _ => { return Err(self.curr_token.clone()); },
        };
        self.step();
        Ok(ident)
    }

    /// The type written in a variable declaration, as `parse_var_type` states.
    fn parse_var_type(&mut self) -> (r: Result<Option<VariableType>, ParseError>)
        requires
            old(self).wf(),
        ensures
            final(self).wf(),
            final(self).toks() == old(self).toks(),
            match parse_var_type(old(self).toks(), old(self).pos()) {
                Ok((vt, q)) => final(self).pos() == q && match r {
                    Ok(Some(x)) => vt == Some(x@),
                    Ok(None) => vt is None,
                    Err(_) => false,
                },
                Err(err) => r matches Err(x) && x@ == err,
            },
    {
        match &self.curr_token {
            Token::IDENTIFIER(t) => {
                let ident = t.clone();
                self.step();
                Ok(Some(VariableType { ident, pointer: false, array: false, array_size: 0 }))
            },
            Token::ASTERISK => {
                self.step();
                match self.expect_identifier() {
                    Ok(ident) => Ok(Some(VariableType { ident, pointer: true, array: false, array_size: 0 })),
                    Err(t) => Err(ParseError::ExpectedTypeName(t)),
                }
            },
            Token::LBRACKET => {
                self.step();
                let size = match self.curr_token {
                    Token::NUMBER(n) => n,
                    _ => { return Err(ParseError::ExpectedArraySize(self.curr_token.clone())); },
                };
                self.step();
                match self.consume(Token::RBRACKET) {
                    Ok(()) => {},
                    Err(e) => { return Err(e); },
                }
                match self.expect_identifier() {
                    Ok(ident) => Ok(Some(VariableType { ident, pointer: false, array: true, array_size: size })),
                    Err(t) => Err(ParseError::ExpectedTypeName(t)),
                }
            },
            _ => Ok(None),
        }
    }

    /// A variable declaration, as `parse_var_decl` states; a declaration with neither a type
    /// nor a value is refused with `CannotInferType`.
    fn parse_var_decl(&mut self) -> (r: Result<Variable, ParseError>)
        requires
            old(self).wf(),
        ensures
            final(self).wf(),
            final(self).toks() == old(self).toks(),
            match parse_var_decl(old(self).toks(), old(self).pos()) {
                Ok((v, q)) => r matches Ok(x) && x@ == v && final(self).pos() == q,
                Err(err) => r matches Err(x) && x@ == err,
            },
    {
        match self.consume(Token::VAR) {
            Ok(()) => {},
            Err(e) => { return Err(e); },
        }

        let name = match self.expect_identifier() {
            Ok(name) => name,
            Err(t) => { return Err(ParseError::ExpectedIdentifier(t)); },
        };
        let typ = match self.parse_var_type() {
            Ok(t) => t,
            Err(e) => { return Err(e); },
        };
        let written = typ.is_some();
        let var_type = match typ {
            Some(vt) => vt,
            None => type_named(None),
        };

        let var = match self.curr_token {
            Token::ASSIGN => {
                self.step();
                let value = match self.parse_expr(Precedence::NONE) {
                    Ok(e) => e,
                    Err(e) => { return Err(e); },
                };
                Variable { name, var_type, value: Some(value) }
            },
            Token::SEMICOLON => {
                if !written {
                    return Err(ParseError::CannotInferType(name));
                }
                Variable { name, var_type, value: None }
            },
            _ => { return Err(ParseError::ExpectedSemicolonOrAssign(self.curr_token.clone())); },
        };
        match self.consume(Token::SEMICOLON) {
            Ok(()) => {},
            Err(e) => { return Err(e); },
        }

        Ok(var)
    }

    fn parse_block(&mut self) -> (r: Result<Vec<Statement>, ParseError>)
        requires
            old(self).wf(),
        ensures
            final(self).wf(),
            final(self).toks() == old(self).toks(),
            match parse_block(old(self).toks(), old(self).pos()) {
                Ok((b, q)) => r matches Ok(x) && stmts_view(x@) == b && final(self).pos() == q,
                Err(err) => r matches Err(x) && x@ == err,
            },
        decreases old(self).toks().len() - old(self).pos(), 0int,
    {
        let ghost ts = self.toks();
        let ghost p0 = self.pos();
        match self.consume(Token::LBRACE) {
            Ok(()) => {},
            Err(e) => { return Err(e); },
        }
        let mut stmts: Vec<Statement> = Vec::new();
        assert(stmts_view(stmts@) =~= Seq::<SpecStatement>::empty());
        while !self.at_rbrace()
            invariant
                self.wf(),
                self.toks() == ts,
                ts == old(self).toks(),
                p0 == old(self).pos(),
                p0 < self.pos() <= ts.len(),
                parse_block(ts, p0) == parse_statements(ts, self.pos(), stmts_view(stmts@)),
            decreases ts.len() - self.pos(),
        {
            proof { lemma_statement_progress(ts, self.pos()); }
            let stmt = match self.parse_statement() {
                Ok(s) => s,
                Err(e) => { return Err(e); },
            };
            proof { lemma_stmts_view_push(stmts@, stmt); }
            stmts.push(stmt);
        }
        self.step();

        Ok(stmts)
    }

    fn parse_statement(&mut self) -> (r: Result<Statement, ParseError>)
        requires
            old(self).wf(),
        ensures
            final(self).wf(),
            final(self).toks() == old(self).toks(),
            match parse_statement(old(self).toks(), old(self).pos()) {
                Ok((st, q)) => r matches Ok(x) && x@ == st && final(self).pos() == q,
                Err(err) => r matches Err(x) && x@ == err,
            },
        decreases old(self).toks().len() - old(self).pos(), 2int,
    {
        match self.curr_token {
            Token::RETURN => self.parse_return_statement(),
            Token::FOR => self.parse_for_statement(),
            Token::IF => self.parse_if_statement(),
            Token::VAR => match self.parse_var_decl() {
                Ok(var) => Ok(Statement::VariableDeclaration(var)),
                Err(e) => Err(e),
            },
            _ => self.parse_expr_statement(),
        }
    }

    fn parse_if_statement(&mut self) -> (r: Result<Statement, ParseError>)
        requires
            old(self).wf(),
        ensures
            final(self).wf(),
            final(self).toks() == old(self).toks(),
            match parse_if_statement(old(self).toks(), old(self).pos()) {
                Ok((st, q)) => r matches Ok(x) && x@ == st && final(self).pos() == q,
                Err(err) => r matches Err(x) && x@ == err,
            },
        decreases old(self).toks().len() - old(self).pos(), 1int,
    {
        let ghost ts = self.toks();
        let ghost p0 = self.pos();
        match self.consume(Token::IF) {
            Ok(()) => {},
            Err(e) => { return Err(e); },
        }
        proof { lemma_expr_progress(ts, self.pos(), level_none()); }
        let cond = match self.parse_expr(Precedence::NONE) {
            Ok(e) => e,
            Err(e) => { return Err(e); },
        };
        let block = match self.parse_block() {
            Ok(b) => b,
            Err(e) => { return Err(e); },
        };

        return Ok(Statement::IfStatement(If { cond, block }));
    }

    fn parse_for_statement(&mut self) -> (r: Result<Statement, ParseError>)
        requires
            old(self).wf(),
        ensures
            final(self).wf(),
            final(self).toks() == old(self).toks(),
            match parse_for_statement(old(self).toks(), old(self).pos()) {
                Ok((st, q)) => r matches Ok(x) && x@ == st && final(self).pos() == q,
                Err(err) => r matches Err(x) && x@ == err,
            },
        decreases old(self).toks().len() - old(self).pos(), 1int,
    {
        let ghost ts = self.toks();
        let ghost p0 = self.pos();
        match self.consume(Token::FOR) {
            Ok(()) => {},
            Err(e) => { return Err(e); },
        }
        proof { lemma_expr_progress(ts, self.pos(), level_none()); }
        let expr = match self.parse_expr(Precedence::NONE) {
            Ok(e) => e,
            Err(e) => { return Err(e); },
        };

        match self.curr_token {
            Token::SEMICOLON => {
                let pre = Some(Box::new(expr));
                self.step();
                proof { lemma_expr_progress(ts, self.pos(), level_none()); }
                let cond = match self.parse_expr(Precedence::NONE) {
                    Ok(e) => e,
                    Err(e) => { return Err(e); },
                };
                match self.consume(Token::SEMICOLON) {
                    Ok(()) => {},
                    Err(e) => { return Err(e); },
                }
                proof { lemma_expr_progress(ts, self.pos(), level_none()); }
                let post = match self.parse_expr(Precedence::NONE) {
                    Ok(e) => Some(Box::new(e)),
                    Err(e) => { return Err(e); },
                };
                let block = match self.parse_block() {
                    Ok(b) => b,
                    Err(e) => { return Err(e); },
                };
                return Ok(Statement::ForStatement(For { pre, cond, post, block }));
            },
            Token::LBRACE => {
                let cond = expr;
                let block = match self.parse_block() {
                    Ok(b) => b,
                    Err(e) => { return Err(e); },
                };
                return Ok(Statement::ForStatement(For { pre: None, cond, post: None, block }));
            },
            _ => Err(ParseError::ExpectedForSeparator(self.curr_token.clone())),
        }
    }

    fn parse_return_statement(&mut self) -> (r: Result<Statement, ParseError>)
        requires
            old(self).wf(),
        ensures
            final(self).wf(),
            final(self).toks() == old(self).toks(),
            match parse_return_statement(old(self).toks(), old(self).pos()) {
                Ok((st, q)) => r matches Ok(x) && x@ == st && final(self).pos() == q,
                Err(err) => r matches Err(x) && x@ == err,
            },
    {
        match self.consume(Token::RETURN) {
            Ok(()) => {},
            Err(e) => { return Err(e); },
        }
        let expr = match self.parse_expr(Precedence::NONE) {
            Ok(e) => e,
            Err(e) => { return Err(e); },
        };
        match self.consume(Token::SEMICOLON) {
            Ok(()) => {},
            Err(e) => { return Err(e); },
        }
        Ok(Statement::ReturnStatement(expr))
    }

    fn parse_expr_statement(&mut self) -> (r: Result<Statement, ParseError>)
        requires
            old(self).wf(),
        ensures
            final(self).wf(),
            final(self).toks() == old(self).toks(),
            match parse_expr_statement(old(self).toks(), old(self).pos()) {
                Ok((st, q)) => r matches Ok(x) && x@ == st && final(self).pos() == q,
                Err(err) => r matches Err(x) && x@ == err,
            },
    {
        let expr = match self.parse_expr(Precedence::NONE) {
            Ok(e) => e,
            Err(e) => { return Err(e); },
        };
        match self.consume(Token::SEMICOLON) {
            Ok(()) => {},
            Err(e) => { return Err(e); },
        }
        Ok(Statement::ExpressionStatement(expr))
    }

    /// A function declaration, as `parse_fn_decl` states; refused with the error of the first
    /// token that does not fit, such as `ExpectedIdentifier` when no name follows `fn`.
    fn parse_fn_decl(&mut self) -> (r: Result<Declaration, ParseError>)
        requires
            old(self).wf(),
        ensures
            final(self).wf(),
            final(self).toks() == old(self).toks(),
            match parse_fn_decl(old(self).toks(), old(self).pos()) {
                Ok((d, q)) => r matches Ok(x) && x@ == d && final(self).pos() == q,
                Err(err) => r matches Err(x) && x@ == err,
            },
    {
        let ghost ts = self.toks();
        let ghost p0 = self.pos();
        match self.consume(Token::FN) {
            Ok(()) => {},
            Err(e) => { return Err(e); },
        }

        let name = match self.expect_identifier() {
            Ok(name) => name,
            Err(t) => { return Err(ParseError::ExpectedIdentifier(t)); },
        };

        match self.consume(Token::LPAREN) {
            Ok(()) => {},
            Err(e) => { return Err(e); },
        }

        let ghost r0 = self.pos();
        let mut params: Vec<Variable> = Vec::new();
        let mut first = true;
        assert(vars_view(params@) =~= Seq::<SpecVariable>::empty());
        while !self.at_rparen()
            invariant
                self.wf(),
                self.toks() == ts,
                ts == old(self).toks(),
                p0 == old(self).pos(),
                tok(ts, p0) == SpecToken::FN,
                tok(ts, p0 + 1) == SpecToken::IDENTIFIER(name@),
                tok(ts, p0 + 2) == SpecToken::LPAREN,
                r0 == p0 + 3,
                r0 <= self.pos() <= ts.len(),
                first ==> self.pos() == r0,
                parse_params(ts, r0, true, seq![]) == parse_params(ts, self.pos(), first, vars_view(params@)),
            decreases ts.len() - self.pos(),
        {
            if !first {
                match self.consume(Token::COMMA) {
                    Ok(()) => {},
                    Err(e) => { return Err(e); },
                }
            }
            let name = match self.expect_identifier() {
                Ok(name) => name,
                Err(t) => { return Err(ParseError::ExpectedIdentifier(t)); },
            };
            let typ = match self.expect_identifier() {
                Ok(typ) => typ,
                Err(t) => { return Err(ParseError::ExpectedTypeName(t)); },
            };
            let param = Variable { name, var_type: type_named(Some(typ)), value: None };
            let ghost before = params@;
            params.push(param);
            assert(vars_view(params@) =~= vars_view(before).push(param@));
            first = false;
        }

        self.step();

        let ghost r3 = self.pos();
        let mut return_types: Vec<String> = Vec::new();
        first = true;
        assert(strings_view(return_types@) =~= Seq::<Seq<char>>::empty());
        while !self.at_lbrace()
            invariant
                self.wf(),
                self.toks() == ts,
                ts == old(self).toks(),
                p0 == old(self).pos(),
                tok(ts, p0) == SpecToken::FN,
                tok(ts, p0 + 1) == SpecToken::IDENTIFIER(name@),
                tok(ts, p0 + 2) == SpecToken::LPAREN,
                parse_params(ts, p0 + 3, true, seq![]) == Ok::<(Seq<SpecVariable>, int), SpecParseError>((vars_view(params@), r3 - 1)),
                tok(ts, r3 - 1) == SpecToken::RPAREN,
                r3 <= self.pos() <= ts.len(),
                first ==> self.pos() == r3,
                parse_return_types(ts, r3, true, seq![]) == parse_return_types(
                    ts,
                    self.pos(),
                    first,
                    strings_view(return_types@),
                ),
            decreases ts.len() - self.pos(),
        {
            if !first {
                match self.consume(Token::COMMA) {
                    Ok(()) => {},
                    Err(e) => { return Err(e); },
                }
            }
            let typ = match self.expect_identifier() {
                Ok(typ) => typ,
                Err(t) => { return Err(ParseError::ExpectedReturnType(t)); },
            };
            let ghost before = return_types@;
            return_types.push(typ);
            assert(strings_view(return_types@) =~= strings_view(before).push(typ@));

            first = false;
        }

        let stmts = match self.parse_block() {
            Ok(b) => b,
            Err(e) => { return Err(e); },
        };

        Ok(Declaration::FunctionDeclaration(Function { name, params, return_types, stmts }))
    }

    fn parse_decl(&mut self) -> (r: Result<Declaration, ParseError>)
        requires
            old(self).wf(),
        ensures
            final(self).wf(),
            final(self).toks() == old(self).toks(),
            match parse_decl(old(self).toks(), old(self).pos()) {
                Ok((d, q)) => r matches Ok(x) && x@ == d && final(self).pos() == q,
                Err(err) => r matches Err(x) && x@ == err,
            },
    {
        match self.curr_token {
            Token::FN => self.parse_fn_decl(),
            Token::VAR => match self.parse_var_decl() {
                Ok(var) => Ok(Declaration::VariableDeclaration(var)),
                Err(e) => Err(e),
            },
            _ => Err(ParseError::NoMatchingDeclaration),
        }
    }

    /// Parses the declarations from the current token up to `EOF` into a
    /// program, or says why they do not form one.
    pub fn try_parse(&mut self) -> (r: Result<Node, ParseError>)
        requires
            old(self).wf(),
        ensures
            final(self).wf(),
            final(self).toks() == old(self).toks(),
            match parse_program(old(self).toks(), old(self).pos()) {
                Ok((n, q)) => r matches Ok(x) && x@ == n && final(self).pos() == q,
                Err(err) => r matches Err(x) && x@ == err,
            },
    {
        let ghost ts = self.toks();
        let ghost p0 = self.pos();
        let mut decls: Vec<Declaration> = Vec::new();
        self.symbol_tables.push(SymbolTable::new());
        assert(decls_view(decls@) =~= Seq::<SpecDeclaration>::empty());
        while !self.at_eof()
            invariant
                self.wf(),
                self.toks() == ts,
                ts == old(self).toks(),
                p0 == old(self).pos(),
                p0 <= self.pos() <= ts.len(),
                parse_decls(ts, p0, seq![]) == parse_decls(ts, self.pos(), decls_view(decls@)),
            decreases ts.len() - self.pos(),
        {
            proof { lemma_decl_progress(ts, self.pos()); }
            let decl = match self.parse_decl() {
                Ok(d) => d,
                Err(e) => { return Err(e); },
            };
            let ghost before = decls@;
            decls.push(decl);
            assert(decls_view(decls@) =~= decls_view(before).push(decl@));
        }

        Ok(Node::Program(decls))
    }

    /// Parses the declarations from the current token up to `EOF` into a program.
    pub fn parse(&mut self) -> (n: Node)
        requires
            old(self).wf(),
            parse_program(old(self).toks(), old(self).pos()) is Ok,
        ensures
            final(self).wf(),
            final(self).toks() == old(self).toks(),
            parse_program(old(self).toks(), old(self).pos()) == Ok::<(SpecNode, int), SpecParseError>((n@, final(self).pos())),
            tok(final(self).toks(), final(self).pos()) == SpecToken::EOF,
    {
        proof { lemma_decls_progress(self.toks(), self.pos(), seq![]); }
        match self.try_parse() {
            Ok(n) => n,
            Err(_) => Node::Program(Vec::new()),
        }
    }
}

} // verus!
