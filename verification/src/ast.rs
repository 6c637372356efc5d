//! The syntax tree that the parser builds, and its mathematical view.
use vstd::prelude::*;

use crate::lexer::{token_text, SpecToken, Token};
use crate::text::{decimal, lit, push_str, u64_to_decimal};

verus! {

/*
The language's grammar:

program     → decl_list EOF
decl       → fn_decl
            | type_decl ";"
            | var_decl ";" ;
decl_list  → epsilon
            | decl decl_list ;
fn_decl     → "fn" IDENT "(" ")" fn_return block ;
block       → stmt_list;

decl_list   → decl decl_list ;
var_decl    → "var" IDENT var_type "=" expr
            | "var" IDENT var_type
            | "var" IDENT "=" expr ;
short_var_decl → IDENT "=" expr ;
var_type    → epsilon
            | IDENT 
            | "[" NUMBER "]" IDENT;
            | "*" IDENT
stmt        → var_decl ";"
            | for_stmt
            | if_stmt
            | expr ";"
            | return_stmt ";" ;
stmt_list   → epsilon
            | stmt stmt_list ;
for_stmt    → "for" expr block
            | "for" expr ";" expr ";" expr block ;
if_stmt     → "if" expr block then_arm ;
then_arm    → "else" block ;
return_stmt → "return" expr_list;
expr        → literal
            | unary
            | binary
            | grouping
            | call ;
expr_list   → epsilon
            | expr "," expr_list
literal     → NUMBER | BOOL | STRING | IDENT | "true" | "false" | "null" ;
grouping    → "(" expr ")" ;
unary       → ( "-" | "~" | "!" | "*" | "&" ) expr ;
binary      → expr op expr ;
op          → "==" | "!=" | "<" | "<=" | ">" | ">="
               | "+"  | "-"  | "*" | "/" ;
call        → IDENT "(" expr_list ")" ;

How the parser reads it:
- fn_decl      → "fn" IDENT "(" params ")" fn_return "{" stmt_list "}" ;
  params       → epsilon | IDENT IDENT ( "," IDENT IDENT )* ;
  fn_return    → epsilon | IDENT ( "," IDENT )* ;
- block        → "{" stmt_list "}" ;
- literal      → NUMBER | IDENT | "true" | "false" ;
- binary also takes "=" (assignment), binding loosest, and "==" "!=" "<" "<=" ">" ">="
  bind looser than "+" "-", which bind looser than "*" "/"; operators of one level
  group to the left.
- return_stmt  → "return" expr ;
- var_type also takes a pointer written "*" IDENT.
Not accepted yet: type_decl, short_var_decl, then_arm, the STRING, BOOL and "null"
literals, and a return of several expressions; the syntax tree has no place for them.
*/
pub enum Node {
    Program(Vec<Declaration>),
    Declaration(Declaration),
    Statement(Statement),
}

#[derive(Debug, Eq, PartialEq)]
pub enum Declaration {
    FunctionDeclaration(Function),
    VariableDeclaration(Variable),
}

#[derive(Debug, Eq, PartialEq)]
pub struct Function {
    pub name: String,
    pub params: Vec<Variable>,
    pub return_types: Vec<String>,
    pub stmts: Vec<Statement>,
}

#[derive(Debug, Eq, PartialEq)]
pub struct VariableType {
    pub ident: String,
    pub pointer: bool,
    pub array: bool,
    pub array_size: u64,
}

#[derive(Debug, Eq, PartialEq)]
pub struct Variable {
    pub name: String,
    pub var_type: VariableType,
    pub value: Option<Expression>,
}

#[derive(Debug, Eq, PartialEq)]
pub enum Statement {
    ForStatement(For),
    IfStatement(If),
    ReturnStatement(Expression),
    ExpressionStatement(Expression),
    VariableDeclaration(Variable),
}

#[derive(Debug, Eq, PartialEq)]
pub struct For {
    pub pre: Option<Box<Expression>>,
    pub cond: Expression,
    pub post: Option<Box<Expression>>,
    pub block: Vec<Statement>,
}

#[derive(Debug, Eq, PartialEq)]
pub struct If {
    pub cond: Expression,
    pub block: Vec<Statement>,
}

#[derive(Debug, Eq, PartialEq)]
pub struct PrefixExpression {
    pub op: Token,
    pub operand: Box<Expression>,
}

#[derive(Debug, Eq, PartialEq)]
pub struct InfixExpression {
    pub op: Token,
    pub left: Box<Expression>,
    pub right: Box<Expression>,
}

#[derive(Debug, Eq, PartialEq)]
pub struct CallExpression {
    pub func: String,
    pub args: Vec<Expression>,
}

#[derive(Debug, Eq, PartialEq)]
pub enum Expression {
    Identifier(String),
    Number(u64),
    Bool(bool),
    Prefix(PrefixExpression),
    Infix(InfixExpression),
    Call(CallExpression),
}

// ---------------------------------------------------------------------------
// Views

pub enum SpecExpression {
    Identifier(Seq<char>),
    Number(u64),
    Bool(bool),
    Prefix(SpecToken, Box<SpecExpression>),
    Infix(SpecToken, Box<SpecExpression>, Box<SpecExpression>),
    Call(Seq<char>, Seq<SpecExpression>),
}

pub struct SpecVariableType {
    pub ident: Seq<char>,
    pub pointer: bool,
    pub array: bool,
    pub array_size: u64,
}

pub struct SpecVariable {
    pub name: Seq<char>,
    pub var_type: SpecVariableType,
    pub value: Option<SpecExpression>,
}

pub enum SpecStatement {
    ForStatement(Option<SpecExpression>, SpecExpression, Option<SpecExpression>, Seq<SpecStatement>),
    IfStatement(SpecExpression, Seq<SpecStatement>),
    ReturnStatement(SpecExpression),
    ExpressionStatement(SpecExpression),
    VariableDeclaration(SpecVariable),
}

pub struct SpecFunction {
    pub name: Seq<char>,
    pub params: Seq<SpecVariable>,
    pub return_types: Seq<Seq<char>>,
    pub stmts: Seq<SpecStatement>,
}

pub enum SpecDeclaration {
    FunctionDeclaration(SpecFunction),
    VariableDeclaration(SpecVariable),
}

pub enum SpecNode {
    Program(Seq<SpecDeclaration>),
    Declaration(SpecDeclaration),
    Statement(SpecStatement),
}

pub open spec fn expr_view(e: Expression) -> SpecExpression
    decreases e,
{
    match e {
        Expression::Identifier(s) => SpecExpression::Identifier(s@),
        Expression::Number(n) => SpecExpression::Number(n),
        Expression::Bool(b) => SpecExpression::Bool(b),
        Expression::Prefix(p) => SpecExpression::Prefix(p.op@, Box::new(expr_view(*p.operand))),
        Expression::Infix(i) => SpecExpression::Infix(
            i.op@,
            Box::new(expr_view(*i.left)),
            Box::new(expr_view(*i.right)),
        ),
        Expression::Call(c) => {
            proof {
                broadcast use vstd::std_specs::vec::axiom_vec_decreases_to_view;
            }
            SpecExpression::Call(c.func@, exprs_view(c.args@))
        },
    }
}

pub open spec fn exprs_view(s: Seq<Expression>) -> Seq<SpecExpression>
    decreases s,
{
    if s.len() == 0 {
        Seq::empty()
    } else {
        proof {
            broadcast use vstd::seq::axiom_seq_index_decreases, vstd::seq::axiom_seq_subrange_decreases;
        }
        seq![expr_view(s[0])] + exprs_view(s.subrange(1, s.len() as int))
    }
}

pub open spec fn opt_expr_view(e: Option<Expression>) -> Option<SpecExpression> {
    match e {
        Some(e) => Some(expr_view(e)),
        None => None,
    }
}

pub open spec fn opt_box_expr_view(e: Option<Box<Expression>>) -> Option<SpecExpression> {
    match e {
        Some(e) => Some(expr_view(*e)),
        None => None,
    }
}

pub open spec fn var_type_view(t: VariableType) -> SpecVariableType {
    SpecVariableType { ident: t.ident@, pointer: t.pointer, array: t.array, array_size: t.array_size }
}

pub open spec fn var_view(v: Variable) -> SpecVariable {
    SpecVariable { name: v.name@, var_type: var_type_view(v.var_type), value: opt_expr_view(v.value) }
}

pub open spec fn vars_view(s: Seq<Variable>) -> Seq<SpecVariable> {
    s.map_values(|v: Variable| var_view(v))
}

pub open spec fn strings_view(s: Seq<String>) -> Seq<Seq<char>> {
    s.map_values(|v: String| v@)
}

pub open spec fn stmt_view(s: Statement) -> SpecStatement
    decreases s,
{
    proof {
        broadcast use vstd::std_specs::vec::axiom_vec_decreases_to_view;
    }
    match s {
        Statement::ForStatement(f) => SpecStatement::ForStatement(
            opt_box_expr_view(f.pre),
            expr_view(f.cond),
            opt_box_expr_view(f.post),
            stmts_view(f.block@),
        ),
        Statement::IfStatement(i) => SpecStatement::IfStatement(expr_view(i.cond), stmts_view(i.block@)),
        Statement::ReturnStatement(e) => SpecStatement::ReturnStatement(expr_view(e)),
        Statement::ExpressionStatement(e) => SpecStatement::ExpressionStatement(expr_view(e)),
        Statement::VariableDeclaration(v) => SpecStatement::VariableDeclaration(var_view(v)),
    }
}

pub open spec fn stmts_view(s: Seq<Statement>) -> Seq<SpecStatement>
    decreases s,
{
    if s.len() == 0 {
        Seq::empty()
    } else {
        proof {
            broadcast use vstd::seq::axiom_seq_index_decreases, vstd::seq::axiom_seq_subrange_decreases;
        }
        seq![stmt_view(s[0])] + stmts_view(s.subrange(1, s.len() as int))
    }
}

pub open spec fn function_view(f: Function) -> SpecFunction {
    SpecFunction {
        name: f.name@,
        params: vars_view(f.params@),
        return_types: strings_view(f.return_types@),
        stmts: stmts_view(f.stmts@),
    }
}

pub open spec fn decl_view(d: Declaration) -> SpecDeclaration {
    match d {
        Declaration::FunctionDeclaration(f) => SpecDeclaration::FunctionDeclaration(function_view(f)),
        Declaration::VariableDeclaration(v) => SpecDeclaration::VariableDeclaration(var_view(v)),
    }
}

pub open spec fn decls_view(s: Seq<Declaration>) -> Seq<SpecDeclaration> {
    s.map_values(|d: Declaration| decl_view(d))
}

impl View for Expression {
    type V = SpecExpression;

    open spec fn view(&self) -> SpecExpression {
        expr_view(*self)
    }
}

impl View for VariableType {
    type V = SpecVariableType;

    open spec fn view(&self) -> SpecVariableType {
        var_type_view(*self)
    }
}

impl View for Variable {
    type V = SpecVariable;

    open spec fn view(&self) -> SpecVariable {
        var_view(*self)
    }
}

impl View for Statement {
    type V = SpecStatement;

    open spec fn view(&self) -> SpecStatement {
        stmt_view(*self)
    }
}

impl View for Function {
    type V = SpecFunction;

    open spec fn view(&self) -> SpecFunction {
        function_view(*self)
    }
}

impl View for Declaration {
    type V = SpecDeclaration;

    open spec fn view(&self) -> SpecDeclaration {
        decl_view(*self)
    }
}

impl View for Node {
    type V = SpecNode;

    open spec fn view(&self) -> SpecNode {
        match self {
            Node::Program(decls) => SpecNode::Program(decls_view(decls@)),
            Node::Declaration(d) => SpecNode::Declaration(decl_view(*d)),
            Node::Statement(s) => SpecNode::Statement(stmt_view(*s)),
        }
    }
}

/// Pushing onto a sequence of expressions extends its view by the view of the new one.
pub proof fn lemma_exprs_view_push(s: Seq<Expression>, e: Expression)
    ensures
        exprs_view(s.push(e)) == exprs_view(s).push(expr_view(e)),
        exprs_view(s).len() == s.len(),
    decreases s.len(),
{
    if s.len() == 0 {
        let t = s.push(e).subrange(1, 1);
        assert(t.len() == 0);
        assert(exprs_view(t) =~= Seq::<SpecExpression>::empty());
        assert(exprs_view(s.push(e)) =~= exprs_view(s).push(expr_view(e)));
    } else {
        lemma_exprs_view_push(s.subrange(1, s.len() as int), e);
        assert(s.push(e).subrange(1, s.len() as int + 1) =~= s.subrange(1, s.len() as int).push(e));
        assert(exprs_view(s.push(e)) =~= exprs_view(s).push(expr_view(e)));
    }
}

/// Pushing onto a sequence of statements extends its view by the view of the new one.
pub proof fn lemma_stmts_view_push(s: Seq<Statement>, e: Statement)
    ensures
        stmts_view(s.push(e)) == stmts_view(s).push(stmt_view(e)),
        stmts_view(s).len() == s.len(),
    decreases s.len(),
{
    if s.len() == 0 {
        let t = s.push(e).subrange(1, 1);
        assert(t.len() == 0);
        assert(stmts_view(t) =~= Seq::<SpecStatement>::empty());
        assert(stmts_view(s.push(e)) =~= stmts_view(s).push(stmt_view(e)));
    } else {
        lemma_stmts_view_push(s.subrange(1, s.len() as int), e);
        assert(s.push(e).subrange(1, s.len() as int + 1) =~= s.subrange(1, s.len() as int).push(e));
        assert(stmts_view(s.push(e)) =~= stmts_view(s).push(stmt_view(e)));
    }
}


/// The view of a sequence of statements holds the view of each statement at its index.
pub proof fn lemma_stmts_view_index(s: Seq<Statement>)
    ensures
        stmts_view(s).len() == s.len(),
        forall|i: int| 0 <= i < s.len() ==> #[trigger] stmts_view(s)[i] == stmt_view(s[i]),
    decreases s.len(),
{
    if s.len() > 0 {
        let t = s.subrange(1, s.len() as int);
        lemma_stmts_view_index(t);
        assert forall|i: int| 0 <= i < s.len() implies #[trigger] stmts_view(s)[i] == stmt_view(s[i]) by {
            if i > 0 {
                assert(stmts_view(s)[i] == stmts_view(t)[i - 1]);
                assert(t[i - 1] == s[i]);
            }
        }
    }
}

/// The view of a sequence of expressions holds the view of each expression at its index.
pub proof fn lemma_exprs_view_index(s: Seq<Expression>)
    ensures
        exprs_view(s).len() == s.len(),
        forall|i: int| 0 <= i < s.len() ==> #[trigger] exprs_view(s)[i] == expr_view(s[i]),
    decreases s.len(),
{
    if s.len() > 0 {
        let t = s.subrange(1, s.len() as int);
        lemma_exprs_view_index(t);
        assert forall|i: int| 0 <= i < s.len() implies #[trigger] exprs_view(s)[i] == expr_view(s[i]) by {
            if i > 0 {
                assert(exprs_view(s)[i] == exprs_view(t)[i - 1]);
                assert(t[i - 1] == s[i]);
            }
        }
    }
}


// ---------------------------------------------------------------------------
// Printed forms

/// `true` or `false`.
pub open spec fn bool_text(b: bool) -> Seq<char> {
    if b { "true"@ } else { "false"@ }
}

pub open spec fn var_type_text(t: SpecVariableType) -> Seq<char> {
    "VariableType [ident: "@ + t.ident + ", pointer: "@ + bool_text(t.pointer) + ", array: "@
        + bool_text(t.array) + ", array_size: "@ + decimal(t.array_size as nat) + "]"@
}

/// The printed form of an expression: operators as `(op, operand, ...)`, calls as `CALL f(a,b,)`.
pub open spec fn expr_text(e: SpecExpression) -> Seq<char>
    decreases e,
{
    match e {
        SpecExpression::Identifier(ident) => ident,
        SpecExpression::Number(num) => decimal(num as nat),
        SpecExpression::Bool(b) => bool_text(b),
        SpecExpression::Prefix(op, operand) => "("@ + token_text(op) + ", "@ + expr_text(*operand) + ")"@,
        SpecExpression::Infix(op, left, right) => "("@ + token_text(op) + ", "@ + expr_text(*left) + ", "@
            + expr_text(*right) + ")"@,
        SpecExpression::Call(func, args) => "CALL "@ + func + "("@ + args_text(args) + ")"@,
    }
}

/// Each argument followed by a comma.
pub open spec fn args_text(args: Seq<SpecExpression>) -> Seq<char>
    decreases args,
{
    if args.len() == 0 {
        Seq::empty()
    } else {
        proof {
            broadcast use vstd::seq::axiom_seq_index_decreases, vstd::seq::axiom_seq_subrange_decreases;
        }
        args_text(args.subrange(0, args.len() - 1)) + expr_text(args[args.len() - 1]) + ","@
    }
}

/// The printed form of a variable declaration statement.
pub open spec fn var_stmt_text(v: SpecVariable) -> Seq<char> {
    "\tVAR("@ + v.name + ", "@ + var_type_text(v.var_type) + match v.value {
        Some(e) => ", "@ + expr_text(e) + ")"@,
        None => ", None)"@,
    }
}

/// The printed form of a statement.
pub open spec fn stmt_text(s: SpecStatement) -> Seq<char>
    decreases s,
{
    match s {
        SpecStatement::ReturnStatement(e) => "\tRETURN("@ + expr_text(e) + ")"@,
        SpecStatement::ExpressionStatement(e) => "\tEXPR("@ + expr_text(e) + ")"@,
        SpecStatement::ForStatement(pre, cond, post, block) => {
            let s1 = match pre {
                Some(p) => "\tFOR("@ + "PRE: "@ + expr_text(p) + ","@,
                None => "\tFOR("@,
            };
            let s2 = s1 + ", COND: "@ + expr_text(cond);
            let s3 = match post {
                Some(p) => s2 + ", POST: "@ + expr_text(p),
                None => s2,
            };
            s3 + ")\n"@ + block_text(block)
        },
        SpecStatement::VariableDeclaration(v) => var_stmt_text(v),
        SpecStatement::IfStatement(cond, block) => "\tIF("@ + expr_text(cond) + ")\n"@ + block_text(block),
    }
}

/// Each statement of a block, indented by two tabs.
pub open spec fn block_text(block: Seq<SpecStatement>) -> Seq<char>
    decreases block,
{
    if block.len() == 0 {
        Seq::empty()
    } else {
        proof {
            broadcast use vstd::seq::axiom_seq_index_decreases, vstd::seq::axiom_seq_subrange_decreases;
        }
        block_text(block.subrange(0, block.len() - 1)) + "\t\t"@ + stmt_text(block[block.len() - 1])
    }
}

/// Each statement of a function, indented by a tab and followed by a newline.
pub open spec fn body_text(stmts: Seq<SpecStatement>) -> Seq<char>
    decreases stmts.len(),
{
    if stmts.len() == 0 {
        Seq::empty()
    } else {
        body_text(stmts.drop_last()) + "\t"@ + stmt_text(stmts.last()) + "\n"@
    }
}

/// The printed form of a declaration; a variable declaration shows no type.
pub open spec fn decl_text(d: SpecDeclaration) -> Seq<char> {
    match d {
        SpecDeclaration::FunctionDeclaration(f) => "\tFUNCTION("@ + f.name + ")\n"@ + body_text(f.stmts),
        SpecDeclaration::VariableDeclaration(v) => "\tVAR("@ + v.name + match v.value {
            Some(e) => ", "@ + expr_text(e) + ")"@,
            None => ", None)"@,
        },
    }
}

/// Each declaration followed by a newline.
pub open spec fn decls_text(ds: Seq<SpecDeclaration>) -> Seq<char>
    decreases ds.len(),
{
    if ds.len() == 0 {
        Seq::empty()
    } else {
        decls_text(ds.drop_last()) + decl_text(ds.last()) + "\n"@
    }
}

pub open spec fn node_text(n: SpecNode) -> Seq<char> {
    match n {
        SpecNode::Program(ds) => "PROGRAM\n"@ + decls_text(ds),
        SpecNode::Declaration(d) => decl_text(d),
        SpecNode::Statement(s) => stmt_text(s),
    }
}

fn bool_string(b: bool) -> (s: String)
    ensures
        s@ == bool_text(b),
{
    if b { lit("true") } else { lit("false") }
}

impl VariableType {
    /// The printed form, such as `VariableType [ident: u8, pointer: false, array: false, array_size: 0]`.
    pub fn display(&self) -> (s: String)
        ensures
            s@ == var_type_text(self@),
    {
        let mut s = lit("VariableType [ident: ");
        push_str(&mut s, self.ident.as_str());
        push_str(&mut s, ", pointer: ");
        push_str(&mut s, bool_string(self.pointer).as_str());
        push_str(&mut s, ", array: ");
        push_str(&mut s, bool_string(self.array).as_str());
        push_str(&mut s, ", array_size: ");
        push_str(&mut s, u64_to_decimal(self.array_size).as_str());
        push_str(&mut s, "]");
        assert(s@ =~= var_type_text(self@));
        s
    }
}

impl Expression {
    /// The printed form of the expression.
    pub fn display(&self) -> (s: String)
        ensures
            s@ == expr_text(self@),
        decreases self,
    {
        match self {
            Expression::Identifier(ident) => ident.clone(),
            Expression::Number(num) => u64_to_decimal(*num),
            Expression::Bool(b) => bool_string(*b),
            Expression::Prefix(prefix) => {
                let mut s = lit("(");
                push_str(&mut s, prefix.op.display().as_str());
                push_str(&mut s, ", ");
                push_str(&mut s, prefix.operand.display().as_str());
                push_str(&mut s, ")");
                assert(s@ =~= expr_text(self@));
                s
            },
            Expression::Infix(infix) => {
                let mut s = lit("(");
                push_str(&mut s, infix.op.display().as_str());
                push_str(&mut s, ", ");
                push_str(&mut s, infix.left.display().as_str());
                push_str(&mut s, ", ");
                push_str(&mut s, infix.right.display().as_str());
                push_str(&mut s, ")");
                assert(s@ =~= expr_text(self@));
                s
            },
            Expression::Call(call) => {
                let mut s = lit("CALL ");
                push_str(&mut s, call.func.as_str());
                push_str(&mut s, "(");
                let ghost head = s@;
                let ghost args = exprs_view(call.args@);
                proof { lemma_exprs_view_index(call.args@); }
                let mut i: usize = 0;
                assert(args.subrange(0, 0) =~= Seq::<SpecExpression>::empty());
                assert(s@ =~= head + args_text(args.subrange(0, 0)));
                while i < call.args.len()
                    invariant
                        i <= call.args@.len(),
                        args == exprs_view(call.args@),
                        args.len() == call.args@.len(),
                        forall|j: int| 0 <= j < call.args@.len() ==> #[trigger] args[j] == call.args@[j]@,
                        *self == Expression::Call(*call),
                        s@ == head + args_text(args.subrange(0, i as int)),
                    decreases call.args@.len() - i,
                {
                    proof {
                        vstd::std_specs::vec::axiom_vec_index_decreases(call.args, i as int);
                        assert(decreases_to!(*self => self->Call_0));
                        assert(decreases_to!(self->Call_0 => self->Call_0.args));
                        assert(decreases_to!(*self => call.args[i as int]));
                    }
                    let a = call.args[i].display();
                    push_str(&mut s, a.as_str());
                    push_str(&mut s, ",");
                    let ghost k = i as int;
                    i = i + 1;
                    assert(args.subrange(0, k + 1).subrange(0, k) =~= args.subrange(0, k));
                    assert(s@ =~= head + args_text(args.subrange(0, k + 1)));
                }
                assert(args.subrange(0, i as int) =~= args);
                push_str(&mut s, ")");
                assert(s@ =~= expr_text(self@));
                s
            },
        }
    }
}


impl Statement {
    /// The printed form of the statement.
    pub fn display(&self) -> (s: String)
        ensures
            s@ == stmt_text(self@),
        decreases self,
    {
        match self {
            Statement::ReturnStatement(expr) => {
                let mut s = lit("\tRETURN(");
                push_str(&mut s, expr.display().as_str());
                push_str(&mut s, ")");
                assert(s@ =~= stmt_text(self@));
                s
            },
            Statement::ExpressionStatement(expr) => {
                let mut s = lit("\tEXPR(");
                push_str(&mut s, expr.display().as_str());
                push_str(&mut s, ")");
                assert(s@ =~= stmt_text(self@));
                s
            },
            Statement::ForStatement(for_stmt) => {
                let mut s = lit("\tFOR(");
                if let Some(pre) = &for_stmt.pre {
                    push_str(&mut s, "PRE: ");
                    push_str(&mut s, pre.display().as_str());
                    push_str(&mut s, ",");
                }
                push_str(&mut s, ", COND: ");
                push_str(&mut s, for_stmt.cond.display().as_str());
                if let Some(post) = &for_stmt.post {
                    push_str(&mut s, ", POST: ");
                    push_str(&mut s, post.display().as_str());
                }
                push_str(&mut s, ")\n");
                let ghost head = s@;
                let ghost block = stmts_view(for_stmt.block@);
                proof { lemma_stmts_view_index(for_stmt.block@); }
                assert(block.subrange(0, 0) =~= Seq::<SpecStatement>::empty());
                assert(s@ =~= head + block_text(block.subrange(0, 0)));
                let mut i: usize = 0;
                while i < for_stmt.block.len()
                    invariant
                        i <= for_stmt.block@.len(),
                        block == stmts_view(for_stmt.block@),
                        block.len() == for_stmt.block@.len(),
                        forall|j: int| 0 <= j < for_stmt.block@.len() ==> #[trigger] block[j] == for_stmt.block@[j]@,
                        *self == Statement::ForStatement(*for_stmt),
                        s@ == head + block_text(block.subrange(0, i as int)),
                    decreases for_stmt.block@.len() - i,
                {
                    proof {
                        vstd::std_specs::vec::axiom_vec_index_decreases(for_stmt.block, i as int);
                        assert(decreases_to!(*self => self->ForStatement_0));
                        assert(decreases_to!(self->ForStatement_0 => self->ForStatement_0.block));
                        assert(decreases_to!(*self => for_stmt.block[i as int]));
                    }
                    let t = for_stmt.block[i].display();
                    push_str(&mut s, "\t\t");
                    push_str(&mut s, t.as_str());
                    let ghost k = i as int;
                    i = i + 1;
                    assert(block.subrange(0, k + 1).subrange(0, k) =~= block.subrange(0, k));
                    assert(s@ =~= head + block_text(block.subrange(0, k + 1)));
                }
                assert(block.subrange(0, i as int) =~= block);
                assert(s@ =~= stmt_text(self@));
                s
            },
            Statement::VariableDeclaration(var) => {
                let mut s = lit("\tVAR(");
                push_str(&mut s, var.name.as_str());
                push_str(&mut s, ", ");
                push_str(&mut s, var.var_type.display().as_str());
                match &var.value {
                    Some(v) => {
                        push_str(&mut s, ", ");
                        push_str(&mut s, v.display().as_str());
                        push_str(&mut s, ")");
                    },
                    None => {
                        push_str(&mut s, ", None)");
                    },
                }
                assert(s@ =~= stmt_text(self@));
                s
            },
            Statement::IfStatement(if_stmt) => {
                let mut s = lit("\tIF(");
                push_str(&mut s, if_stmt.cond.display().as_str());
                push_str(&mut s, ")\n");
                let ghost head = s@;
                let ghost block = stmts_view(if_stmt.block@);
                proof { lemma_stmts_view_index(if_stmt.block@); }
                assert(block.subrange(0, 0) =~= Seq::<SpecStatement>::empty());
                assert(s@ =~= head + block_text(block.subrange(0, 0)));
                let mut i: usize = 0;
                while i < if_stmt.block.len()
                    invariant
                        i <= if_stmt.block@.len(),
                        block == stmts_view(if_stmt.block@),
                        block.len() == if_stmt.block@.len(),
                        forall|j: int| 0 <= j < if_stmt.block@.len() ==> #[trigger] block[j] == if_stmt.block@[j]@,
                        *self == Statement::IfStatement(*if_stmt),
                        s@ == head + block_text(block.subrange(0, i as int)),
                    decreases if_stmt.block@.len() - i,
                {
                    proof {
                        vstd::std_specs::vec::axiom_vec_index_decreases(if_stmt.block, i as int);
                        assert(decreases_to!(*self => self->IfStatement_0));
                        assert(decreases_to!(self->IfStatement_0 => self->IfStatement_0.block));
                        assert(decreases_to!(*self => if_stmt.block[i as int]));
                    }
                    let t = if_stmt.block[i].display();
                    push_str(&mut s, "\t\t");
                    push_str(&mut s, t.as_str());
                    let ghost k = i as int;
                    i = i + 1;
                    assert(block.subrange(0, k + 1).subrange(0, k) =~= block.subrange(0, k));
                    assert(s@ =~= head + block_text(block.subrange(0, k + 1)));
                }
                assert(block.subrange(0, i as int) =~= block);
                assert(s@ =~= stmt_text(self@));
                s
            },
        }
    }
}

impl Declaration {
    /// The printed form of the declaration.
    pub fn display(&self) -> (s: String)
        ensures
            s@ == decl_text(self@),
    {
        match self {
            Declaration::FunctionDeclaration(func) => {
                let mut s = lit("\tFUNCTION(");
                push_str(&mut s, func.name.as_str());
                push_str(&mut s, ")\n");
                let ghost head = s@;
                let ghost stmts = stmts_view(func.stmts@);
                proof { lemma_stmts_view_index(func.stmts@); }
                assert(stmts.subrange(0, 0) =~= Seq::<SpecStatement>::empty());
                assert(s@ =~= head + body_text(stmts.subrange(0, 0)));
                let mut i: usize = 0;
                while i < func.stmts.len()
                    invariant
                        i <= func.stmts@.len(),
                        stmts == stmts_view(func.stmts@),
                        stmts.len() == func.stmts@.len(),
                        forall|j: int| 0 <= j < func.stmts@.len() ==> #[trigger] stmts[j] == func.stmts@[j]@,
                        s@ == head + body_text(stmts.subrange(0, i as int)),
                    decreases func.stmts@.len() - i,
                {
                    let t = func.stmts[i].display();
                    push_str(&mut s, "\t");
                    push_str(&mut s, t.as_str());
                    push_str(&mut s, "\n");
                    let ghost k = i as int;
                    i = i + 1;
                    assert(stmts.subrange(0, k + 1).drop_last() =~= stmts.subrange(0, k));
                    assert(s@ =~= head + body_text(stmts.subrange(0, k + 1)));
                }
                assert(stmts.subrange(0, i as int) =~= stmts);
                assert(s@ =~= decl_text(self@));
                s
            },
            Declaration::VariableDeclaration(var) => {
                let mut s = lit("\tVAR(");
                push_str(&mut s, var.name.as_str());
                match &var.value {
                    Some(v) => {
                        push_str(&mut s, ", ");
                        push_str(&mut s, v.display().as_str());
                        push_str(&mut s, ")");
                    },
                    None => {
                        push_str(&mut s, ", None)");
                    },
                }
                assert(s@ =~= decl_text(self@));
                s
            },
        }
    }
}

impl Node {
    /// The printed form of the node: a program is `PROGRAM` and then its declarations, one per line.
    pub fn display(&self) -> (s: String)
        ensures
            s@ == node_text(self@),
    {
        match self {
            Node::Program(decls) => {
                let mut s = lit("PROGRAM\n");
                let ghost head = s@;
                let ghost ds = decls_view(decls@);
                assert(ds.subrange(0, 0) =~= Seq::<SpecDeclaration>::empty());
                assert(s@ =~= head + decls_text(ds.subrange(0, 0)));
                let mut i: usize = 0;
                while i < decls.len()
                    invariant
                        i <= decls@.len(),
                        ds == decls_view(decls@),
                        s@ == head + decls_text(ds.subrange(0, i as int)),
                    decreases decls@.len() - i,
                {
                    let t = decls[i].display();
                    push_str(&mut s, t.as_str());
                    push_str(&mut s, "\n");
                    let ghost k = i as int;
                    i = i + 1;
                    assert(ds.subrange(0, k + 1).drop_last() =~= ds.subrange(0, k));
                    assert(s@ =~= head + decls_text(ds.subrange(0, k + 1)));
                }
                assert(ds.subrange(0, i as int) =~= ds);
                s
            },
            Node::Declaration(decl) => decl.display(),
            Node::Statement(stmt) => stmt.display(),
        }
    }
}

} // verus!
