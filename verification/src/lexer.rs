//! Tokens and the lexer that turns source text into them.
use vstd::prelude::*;

use crate::text::{decimal, digit_char, lit, push_char, push_str, str_eq, u64_to_decimal};

verus! {

/// A lexical token.
#[derive(Debug, PartialEq, Eq)]
pub enum Token {
    UNKNOWN,
    IDENTIFIER(String),
    NUMBER(u64),
    LPAREN,
    RPAREN,
    LBRACKET,
    RBRACKET,
    LBRACE,
    RBRACE,
    SEMICOLON,
    COLON,
    COMMA,
    PLUS,
    DASH,
    ASTERISK,
    SLASH,
    ASSIGN,
    BANG,
    TILDE,
    LT,
    GT,
    LEQ,
    GEQ,
    EQ,
    NEQ,
    QUESTION,
    AMPERSAND,
    FN,
    RETURN,
    VAR,
    FOR,
    IF,
    ELSE,
    TRUE,
    FALSE,
    EOF,
}

/// The mathematical value of a token: identifiers carry their characters.
pub enum SpecToken {
    UNKNOWN,
    IDENTIFIER(Seq<char>),
    NUMBER(u64),
    LPAREN,
    RPAREN,
    LBRACKET,
    RBRACKET,
    LBRACE,
    RBRACE,
    SEMICOLON,
    COLON,
    COMMA,
    PLUS,
    DASH,
    ASTERISK,
    SLASH,
    ASSIGN,
    BANG,
    TILDE,
    LT,
    GT,
    LEQ,
    GEQ,
    EQ,
    NEQ,
    QUESTION,
    AMPERSAND,
    FN,
    RETURN,
    VAR,
    FOR,
    IF,
    ELSE,
    TRUE,
    FALSE,
    EOF,
}

impl View for Token {
    type V = SpecToken;

    open spec fn view(&self) -> SpecToken {
        match self {
            Token::IDENTIFIER(s) => SpecToken::IDENTIFIER(s@),
            Token::NUMBER(n) => SpecToken::NUMBER(*n),
            Token::UNKNOWN => SpecToken::UNKNOWN,
            Token::LPAREN => SpecToken::LPAREN,
            Token::RPAREN => SpecToken::RPAREN,
            Token::LBRACKET => SpecToken::LBRACKET,
            Token::RBRACKET => SpecToken::RBRACKET,
            Token::LBRACE => SpecToken::LBRACE,
            Token::RBRACE => SpecToken::RBRACE,
            Token::SEMICOLON => SpecToken::SEMICOLON,
            Token::COLON => SpecToken::COLON,
            Token::COMMA => SpecToken::COMMA,
            Token::PLUS => SpecToken::PLUS,
            Token::DASH => SpecToken::DASH,
            Token::ASTERISK => SpecToken::ASTERISK,
            Token::SLASH => SpecToken::SLASH,
            Token::ASSIGN => SpecToken::ASSIGN,
            Token::BANG => SpecToken::BANG,
            Token::TILDE => SpecToken::TILDE,
            Token::LT => SpecToken::LT,
            Token::GT => SpecToken::GT,
            Token::LEQ => SpecToken::LEQ,
            Token::GEQ => SpecToken::GEQ,
            Token::EQ => SpecToken::EQ,
            Token::NEQ => SpecToken::NEQ,
            Token::QUESTION => SpecToken::QUESTION,
            Token::AMPERSAND => SpecToken::AMPERSAND,
            Token::FN => SpecToken::FN,
            Token::RETURN => SpecToken::RETURN,
            Token::VAR => SpecToken::VAR,
            Token::FOR => SpecToken::FOR,
            Token::IF => SpecToken::IF,
            Token::ELSE => SpecToken::ELSE,
            Token::TRUE => SpecToken::TRUE,
            Token::FALSE => SpecToken::FALSE,
            Token::EOF => SpecToken::EOF,
        }
    }
}

impl Clone for Token {
    fn clone(&self) -> (res: Self)
        ensures
            res == *self,
    {
        match self {
            Token::IDENTIFIER(s) => Token::IDENTIFIER(s.clone()),
            Token::NUMBER(n) => Token::NUMBER(*n),
            Token::UNKNOWN => Token::UNKNOWN,
            Token::LPAREN => Token::LPAREN,
            Token::RPAREN => Token::RPAREN,
            Token::LBRACKET => Token::LBRACKET,
            Token::RBRACKET => Token::RBRACKET,
            Token::LBRACE => Token::LBRACE,
            Token::RBRACE => Token::RBRACE,
            Token::SEMICOLON => Token::SEMICOLON,
            Token::COLON => Token::COLON,
            Token::COMMA => Token::COMMA,
            Token::PLUS => Token::PLUS,
            Token::DASH => Token::DASH,
            Token::ASTERISK => Token::ASTERISK,
            Token::SLASH => Token::SLASH,
            Token::ASSIGN => Token::ASSIGN,
            Token::BANG => Token::BANG,
            Token::TILDE => Token::TILDE,
            Token::LT => Token::LT,
            Token::GT => Token::GT,
            Token::LEQ => Token::LEQ,
            Token::GEQ => Token::GEQ,
            Token::EQ => Token::EQ,
            Token::NEQ => Token::NEQ,
            Token::QUESTION => Token::QUESTION,
            Token::AMPERSAND => Token::AMPERSAND,
            Token::FN => Token::FN,
            Token::RETURN => Token::RETURN,
            Token::VAR => Token::VAR,
            Token::FOR => Token::FOR,
            Token::IF => Token::IF,
            Token::ELSE => Token::ELSE,
            Token::TRUE => Token::TRUE,
            Token::FALSE => Token::FALSE,
            Token::EOF => Token::EOF,
        }
    }
}

/// The views of a sequence of tokens.
pub open spec fn tokens_view(ts: Seq<Token>) -> Seq<SpecToken> {
    ts.map_values(|t: Token| t@)
}

/// The text of a token as it is printed: its kind and its lexeme.
pub open spec fn token_text(t: SpecToken) -> Seq<char> {
    match t {
        SpecToken::IDENTIFIER(s) => "(IDENTIFIER, "@ + s + ")"@,
        SpecToken::NUMBER(n) => "(NUMBER, "@ + decimal(n as nat) + ")"@,
            SpecToken::UNKNOWN => "(UNKNOWN, )"@,
            SpecToken::LPAREN => "(LPAREN, ()"@,
            SpecToken::RPAREN => "(RPAREN, ))"@,
            SpecToken::LBRACKET => "(LBRACKET, [)"@,
            SpecToken::RBRACKET => "(RBRACKET, ])"@,
            SpecToken::LBRACE => "(LBRACE, {)"@,
            SpecToken::RBRACE => "(RBRACE, })"@,
            SpecToken::SEMICOLON => "(SEMICOLON, ;)"@,
            SpecToken::COLON => "(COLON, :)"@,
            SpecToken::COMMA => "(COMMA, ,)"@,
            SpecToken::PLUS => "(PLUS, +)"@,
            SpecToken::DASH => "(DASH, -)"@,
            SpecToken::ASTERISK => "(ASTERISK, *)"@,
            SpecToken::SLASH => "(SLASH, /)"@,
            SpecToken::ASSIGN => "(ASSIGN, =)"@,
            SpecToken::BANG => "(BANG, !)"@,
            SpecToken::TILDE => "(TILDE, ~)"@,
            SpecToken::LT => "(LT, <)"@,
            SpecToken::GT => "(GT, >)"@,
            SpecToken::LEQ => "(LEQ, <=)"@,
            SpecToken::GEQ => "(GEQ, >=)"@,
            SpecToken::EQ => "(EQ, ==)"@,
            SpecToken::NEQ => "(NEQ, !=)"@,
            SpecToken::QUESTION => "(QUESTION, ?)"@,
            SpecToken::AMPERSAND => "(AMPERSAND, &)"@,
            SpecToken::FN => "(FN, fn)"@,
            SpecToken::RETURN => "(RETURN, return)"@,
            SpecToken::VAR => "(VAR, var)"@,
            SpecToken::FOR => "(FOR, for)"@,
            SpecToken::IF => "(IF, if)"@,
            SpecToken::ELSE => "(ELSE, else)"@,
            SpecToken::TRUE => "(TRUE, true)"@,
            SpecToken::FALSE => "(FALSE, false)"@,
            SpecToken::EOF => "(EOF, )"@,
    }
}

/// The name of a token's kind.
pub open spec fn token_name(t: SpecToken) -> Seq<char> {
    match t {
        SpecToken::UNKNOWN => "UNKNOWN"@,
        SpecToken::IDENTIFIER(_) => "IDENTIFIER"@,
        SpecToken::NUMBER(_) => "NUMBER"@,
        SpecToken::LPAREN => "LPAREN"@,
        SpecToken::RPAREN => "RPAREN"@,
        SpecToken::LBRACKET => "LBRACKET"@,
        SpecToken::RBRACKET => "RBRACKET"@,
        SpecToken::LBRACE => "LBRACE"@,
        SpecToken::RBRACE => "RBRACE"@,
        SpecToken::SEMICOLON => "SEMICOLON"@,
        SpecToken::COLON => "COLON"@,
        SpecToken::COMMA => "COMMA"@,
        SpecToken::PLUS => "PLUS"@,
        SpecToken::DASH => "DASH"@,
        SpecToken::ASTERISK => "ASTERISK"@,
        SpecToken::SLASH => "SLASH"@,
        SpecToken::ASSIGN => "ASSIGN"@,
        SpecToken::BANG => "BANG"@,
        SpecToken::TILDE => "TILDE"@,
        SpecToken::LT => "LT"@,
        SpecToken::GT => "GT"@,
        SpecToken::LEQ => "LEQ"@,
        SpecToken::GEQ => "GEQ"@,
        SpecToken::EQ => "EQ"@,
        SpecToken::NEQ => "NEQ"@,
        SpecToken::QUESTION => "QUESTION"@,
        SpecToken::AMPERSAND => "AMPERSAND"@,
        SpecToken::FN => "FN"@,
        SpecToken::RETURN => "RETURN"@,
        SpecToken::VAR => "VAR"@,
        SpecToken::FOR => "FOR"@,
        SpecToken::IF => "IF"@,
        SpecToken::ELSE => "ELSE"@,
        SpecToken::TRUE => "TRUE"@,
        SpecToken::FALSE => "FALSE"@,
        SpecToken::EOF => "EOF"@,
    }
}

/// The source text of a token; a NUL character for the tokens that have none.
pub open spec fn token_literal(t: SpecToken) -> Seq<char> {
    match t {
        SpecToken::IDENTIFIER(s) => s,
        SpecToken::NUMBER(n) => decimal(n as nat),
            SpecToken::LPAREN => "("@,
            SpecToken::RPAREN => ")"@,
            SpecToken::LBRACKET => "["@,
            SpecToken::RBRACKET => "]"@,
            SpecToken::LBRACE => "{"@,
            SpecToken::RBRACE => "}"@,
            SpecToken::SEMICOLON => ";"@,
            SpecToken::COLON => ":"@,
            SpecToken::COMMA => ","@,
            SpecToken::PLUS => "+"@,
            SpecToken::DASH => "-"@,
            SpecToken::ASTERISK => "*"@,
            SpecToken::SLASH => "/"@,
            SpecToken::ASSIGN => "="@,
            SpecToken::BANG => "!"@,
            SpecToken::TILDE => "~"@,
            SpecToken::LT => "<"@,
            SpecToken::GT => ">"@,
            SpecToken::LEQ => "<="@,
            SpecToken::GEQ => ">="@,
            SpecToken::EQ => "=="@,
            SpecToken::NEQ => "!="@,
            SpecToken::QUESTION => "?"@,
            SpecToken::AMPERSAND => "&"@,
            SpecToken::FN => "fn"@,
            SpecToken::RETURN => "return"@,
            SpecToken::VAR => "var"@,
            SpecToken::FOR => "for"@,
            SpecToken::IF => "if"@,
            SpecToken::ELSE => "else"@,
            SpecToken::TRUE => "true"@,
            SpecToken::FALSE => "false"@,
        _ => "\0"@,
    }
}

impl Token {
    /// Whether two tokens are the same token.
    pub fn same(&self, other: &Token) -> (r: bool)
        ensures
            r == (self@ == other@),
    {
        match (self, other) {
            (Token::IDENTIFIER(a), Token::IDENTIFIER(b)) => str_eq(a.as_str(), b.as_str()),
            (Token::NUMBER(a), Token::NUMBER(b)) => *a == *b,
            (Token::UNKNOWN, Token::UNKNOWN) => true,
            (Token::LPAREN, Token::LPAREN) => true,
            (Token::RPAREN, Token::RPAREN) => true,
            (Token::LBRACKET, Token::LBRACKET) => true,
            (Token::RBRACKET, Token::RBRACKET) => true,
            (Token::LBRACE, Token::LBRACE) => true,
            (Token::RBRACE, Token::RBRACE) => true,
            (Token::SEMICOLON, Token::SEMICOLON) => true,
            (Token::COLON, Token::COLON) => true,
            (Token::COMMA, Token::COMMA) => true,
            (Token::PLUS, Token::PLUS) => true,
            (Token::DASH, Token::DASH) => true,
            (Token::ASTERISK, Token::ASTERISK) => true,
            (Token::SLASH, Token::SLASH) => true,
            (Token::ASSIGN, Token::ASSIGN) => true,
            (Token::BANG, Token::BANG) => true,
            (Token::TILDE, Token::TILDE) => true,
            (Token::LT, Token::LT) => true,
            (Token::GT, Token::GT) => true,
            (Token::LEQ, Token::LEQ) => true,
            (Token::GEQ, Token::GEQ) => true,
            (Token::EQ, Token::EQ) => true,
            (Token::NEQ, Token::NEQ) => true,
            (Token::QUESTION, Token::QUESTION) => true,
            (Token::AMPERSAND, Token::AMPERSAND) => true,
            (Token::FN, Token::FN) => true,
            (Token::RETURN, Token::RETURN) => true,
            (Token::VAR, Token::VAR) => true,
            (Token::FOR, Token::FOR) => true,
            (Token::IF, Token::IF) => true,
            (Token::ELSE, Token::ELSE) => true,
            (Token::TRUE, Token::TRUE) => true,
            (Token::FALSE, Token::FALSE) => true,
            (Token::EOF, Token::EOF) => true,
            _ => false,
        }
    }

    /// The printed form of the token, such as `(LPAREN, ()`.
    pub fn display(&self) -> (s: String)
        ensures
            s@ == token_text(self@),
    {
        match self {
            Token::IDENTIFIER(ident) => {
                let mut s = lit("(IDENTIFIER, ");
                push_str(&mut s, ident.as_str());
                push_str(&mut s, ")");
                s
            },
            Token::NUMBER(num) => {
                let mut s = lit("(NUMBER, ");
                let d = u64_to_decimal(*num);
                push_str(&mut s, d.as_str());
                push_str(&mut s, ")");
                s
            },
            Token::UNKNOWN => lit("(UNKNOWN, )"),
            Token::LPAREN => lit("(LPAREN, ()"),
            Token::RPAREN => lit("(RPAREN, ))"),
            Token::LBRACKET => lit("(LBRACKET, [)"),
            Token::RBRACKET => lit("(RBRACKET, ])"),
            Token::LBRACE => lit("(LBRACE, {)"),
            Token::RBRACE => lit("(RBRACE, })"),
            Token::SEMICOLON => lit("(SEMICOLON, ;)"),
            Token::COLON => lit("(COLON, :)"),
            Token::COMMA => lit("(COMMA, ,)"),
            Token::PLUS => lit("(PLUS, +)"),
            Token::DASH => lit("(DASH, -)"),
            Token::ASTERISK => lit("(ASTERISK, *)"),
            Token::SLASH => lit("(SLASH, /)"),
            Token::ASSIGN => lit("(ASSIGN, =)"),
            Token::BANG => lit("(BANG, !)"),
            Token::TILDE => lit("(TILDE, ~)"),
            Token::LT => lit("(LT, <)"),
            Token::GT => lit("(GT, >)"),
            Token::LEQ => lit("(LEQ, <=)"),
            Token::GEQ => lit("(GEQ, >=)"),
            Token::EQ => lit("(EQ, ==)"),
            Token::NEQ => lit("(NEQ, !=)"),
            Token::QUESTION => lit("(QUESTION, ?)"),
            Token::AMPERSAND => lit("(AMPERSAND, &)"),
            Token::FN => lit("(FN, fn)"),
            Token::RETURN => lit("(RETURN, return)"),
            Token::VAR => lit("(VAR, var)"),
            Token::FOR => lit("(FOR, for)"),
            Token::IF => lit("(IF, if)"),
            Token::ELSE => lit("(ELSE, else)"),
            Token::TRUE => lit("(TRUE, true)"),
            Token::FALSE => lit("(FALSE, false)"),
            Token::EOF => lit("(EOF, )"),
        }
    }

    /// The source text of the token.
    pub fn get_literal(&self) -> (s: String)
        ensures
            s@ == token_literal(self@),
    {
        match self {
            Token::IDENTIFIER(ident) => ident.clone(),
            Token::NUMBER(num) => u64_to_decimal(*num),
            Token::LPAREN => lit("("),
            Token::RPAREN => lit(")"),
            Token::LBRACKET => lit("["),
            Token::RBRACKET => lit("]"),
            Token::LBRACE => lit("{"),
            Token::RBRACE => lit("}"),
            Token::SEMICOLON => lit(";"),
            Token::COLON => lit(":"),
            Token::COMMA => lit(","),
            Token::PLUS => lit("+"),
            Token::DASH => lit("-"),
            Token::ASTERISK => lit("*"),
            Token::SLASH => lit("/"),
            Token::ASSIGN => lit("="),
            Token::BANG => lit("!"),
            Token::TILDE => lit("~"),
            Token::LT => lit("<"),
            Token::GT => lit(">"),
            Token::LEQ => lit("<="),
            Token::GEQ => lit(">="),
            Token::EQ => lit("=="),
            Token::NEQ => lit("!="),
            Token::QUESTION => lit("?"),
            Token::AMPERSAND => lit("&"),
            Token::FN => lit("fn"),
            Token::RETURN => lit("return"),
            Token::VAR => lit("var"),
            Token::FOR => lit("for"),
            Token::IF => lit("if"),
            Token::ELSE => lit("else"),
            Token::TRUE => lit("true"),
            Token::FALSE => lit("false"),
            _ => lit("\0"),
        }
    }
}


/// Whether `c` starts a punctuator.
pub open spec fn is_punctuator_char(c: char) -> bool {
    c == '(' || c == ')' || c == '[' || c == ']' || c == '{' || c == '}' || c == '+' || c == '-'
        || c == '/' || c == '*' || c == '=' || c == '<' || c == '>' || c == '?' || c == '&'
        || c == '!' || c == '~' || c == ':' || c == ';' || c == ','
}

/// Whether `c` is an ASCII decimal digit.
pub open spec fn is_digit_char(c: char) -> bool {
    '0' <= c && c <= '9'
}

/// Whether `c` is an ASCII letter.
pub open spec fn is_alpha_char(c: char) -> bool {
    ('a' <= c && c <= 'z') || ('A' <= c && c <= 'Z')
}

/// Whether `c` may continue an identifier.
pub open spec fn is_alphanumeric_char(c: char) -> bool {
    is_digit_char(c) || is_alpha_char(c) || c == '_'
}

/// The token of a one-character lexeme.
pub open spec fn single_char_token(c: char) -> SpecToken {
    if c == '<' { SpecToken::LT }
    else if c == '>' { SpecToken::GT }
    else if c == '!' { SpecToken::BANG }
    else if c == '~' { SpecToken::TILDE }
    else if c == ':' { SpecToken::COLON }
    else if c == '+' { SpecToken::PLUS }
    else if c == '-' { SpecToken::DASH }
    else if c == '/' { SpecToken::SLASH }
    else if c == '*' { SpecToken::ASTERISK }
    else if c == '{' { SpecToken::LBRACE }
    else if c == '}' { SpecToken::RBRACE }
    else if c == ')' { SpecToken::RPAREN }
    else if c == '(' { SpecToken::LPAREN }
    else if c == '[' { SpecToken::LBRACKET }
    else if c == ']' { SpecToken::RBRACKET }
    else if c == '?' { SpecToken::QUESTION }
    else if c == '&' { SpecToken::AMPERSAND }
    else if c == ';' { SpecToken::SEMICOLON }
    else if c == ',' { SpecToken::COMMA }
    else if c == '=' { SpecToken::ASSIGN }
    else { SpecToken::UNKNOWN }
}

/// The token of a lexeme: the two-character comparison operators and the
/// one-character punctuators; anything else is `UNKNOWN`.
pub open spec fn lexeme_token(s: Seq<char>) -> SpecToken {
    if s == seq!['<', '='] { SpecToken::LEQ }
    else if s == seq!['>', '='] { SpecToken::GEQ }
    else if s == seq!['!', '='] { SpecToken::NEQ }
    else if s == seq!['=', '='] { SpecToken::EQ }
    else if s.len() == 1 { single_char_token(s[0]) }
    else { SpecToken::UNKNOWN }
}

/// The token of a keyword, if `w` is one.
pub open spec fn keyword_token(w: Seq<char>) -> Option<SpecToken> {
    if w == "if"@ { Some(SpecToken::IF) }
    else if w == "return"@ { Some(SpecToken::RETURN) }
    else if w == "fn"@ { Some(SpecToken::FN) }
    else if w == "var"@ { Some(SpecToken::VAR) }
    else if w == "for"@ { Some(SpecToken::FOR) }
    else if w == "else"@ { Some(SpecToken::ELSE) }
    else if w == "true"@ { Some(SpecToken::TRUE) }
    else if w == "false"@ { Some(SpecToken::FALSE) }
    else { None }
}

/// The value of a digit character.
pub open spec fn digit_value(c: char) -> nat {
    (c as int - '0' as int) as nat
}

/// The value of a sequence of decimal digits, most significant first.
pub open spec fn digits_value(ds: Seq<char>) -> nat
    decreases ds.len(),
{
    if ds.len() == 0 {
        0
    } else {
        digits_value(ds.drop_last()) * 10 + digit_value(ds.last())
    }
}

/// The end of the run of digits in `s` that starts at `k`.
pub open spec fn digit_run_end(s: Seq<char>, k: int) -> int
    decreases s.len() - k,
{
    if k < 0 || k >= s.len() || !is_digit_char(s[k]) {
        k
    } else {
        digit_run_end(s, k + 1)
    }
}

/// The end of the run of identifier characters in `s` that starts at `k`.
pub open spec fn alnum_run_end(s: Seq<char>, k: int) -> int
    decreases s.len() - k,
{
    if k < 0 || k >= s.len() || !is_alphanumeric_char(s[k]) {
        k
    } else {
        alnum_run_end(s, k + 1)
    }
}

/// The token of the punctuator at `i` and the index after it: `>`, `<`, `!`
/// and `=` take a following `=` into a two-character operator.
pub open spec fn punctuator_step(s: Seq<char>, i: int) -> (SpecToken, int) {
    let c = s[i];
    if (c == '>' || c == '<' || c == '!' || c == '=') && i + 1 < s.len() && s[i + 1] == '=' {
        (lexeme_token(seq![c, '=']), i + 2)
    } else {
        (lexeme_token(seq![c]), i + 1)
    }
}

/// The tokens of `s` from index `i` on, ending with `EOF`; `None` when a
/// number does not fit in 64 bits.
pub open spec fn lex_from(s: Seq<char>, i: int) -> Option<Seq<SpecToken>>
    decreases s.len() - i,
{
    if i < 0 || i >= s.len() {
        Some(seq![SpecToken::EOF])
    } else {
        let c = s[i];
        if is_punctuator_char(c) {
            let (t, j) = punctuator_step(s, i);
            match lex_from(s, j) {
                Some(rest) => Some(seq![t] + rest),
                None => None,
            }
        } else if is_digit_char(c) {
            proof { lemma_digit_run_end_bounds(s, i + 1); }
            let j = digit_run_end(s, i + 1);
            let v = digits_value(s.subrange(i, j));
            if v > u64::MAX {
                None
            } else {
                match lex_from(s, j) {
                    Some(rest) => Some(seq![SpecToken::NUMBER(v as u64)] + rest),
                    None => None,
                }
            }
        } else if is_alpha_char(c) {
            proof { lemma_alnum_run_end_bounds(s, i + 1); }
            let j = alnum_run_end(s, i + 1);
            let w = s.subrange(i, j);
            let t = match keyword_token(w) {
                Some(k) => k,
                None => SpecToken::IDENTIFIER(w),
            };
            match lex_from(s, j) {
                Some(rest) => Some(seq![t] + rest),
                None => None,
            }
        } else {
            lex_from(s, i + 1)
        }
    }
}

/// The tokens of a whole source text.
pub open spec fn lex_spec(s: Seq<char>) -> Option<Seq<SpecToken>> {
    lex_from(s, 0)
}

pub proof fn lemma_digit_run_end_bounds(s: Seq<char>, k: int)
    requires
        0 <= k <= s.len(),
    ensures
        k <= digit_run_end(s, k) <= s.len(),
        forall|m: int| k <= m < digit_run_end(s, k) ==> is_digit_char(#[trigger] s[m]),
        digit_run_end(s, k) < s.len() ==> !is_digit_char(s[digit_run_end(s, k)]),
    decreases s.len() - k,
{
    if k < s.len() && is_digit_char(s[k]) {
        lemma_digit_run_end_bounds(s, k + 1);
    }
}

pub proof fn lemma_alnum_run_end_bounds(s: Seq<char>, k: int)
    requires
        0 <= k <= s.len(),
    ensures
        k <= alnum_run_end(s, k) <= s.len(),
        forall|m: int| k <= m < alnum_run_end(s, k) ==> is_alphanumeric_char(#[trigger] s[m]),
        alnum_run_end(s, k) < s.len() ==> !is_alphanumeric_char(s[alnum_run_end(s, k)]),
    decreases s.len() - k,
{
    if k < s.len() && is_alphanumeric_char(s[k]) {
        lemma_alnum_run_end_bounds(s, k + 1);
    }
}

/// Appending a digit never makes the value smaller.
proof fn lemma_digits_value_grows(ds: Seq<char>, k: int)
    requires
        0 <= k <= ds.len(),
    ensures
        digits_value(ds.subrange(0, k)) <= digits_value(ds),
    decreases ds.len() - k,
{
    if k < ds.len() {
        lemma_digits_value_grows(ds, k + 1);
        assert(ds.subrange(0, k + 1).drop_last() =~= ds.subrange(0, k));
    } else {
        assert(ds.subrange(0, k) =~= ds);
    }
}

/// The characters of the source and the index of the next one to read.
pub struct CharStream {
    chars: Vec<char>,
    pos: usize,
}

impl CharStream {
    pub closed spec fn chars(&self) -> Seq<char> {
        self.chars@
    }

    pub closed spec fn pos(&self) -> int {
        self.pos as int
    }

    pub closed spec fn wf(&self) -> bool {
        self.pos <= self.chars@.len()
    }

    /// A stream at the start of `input`.
    pub fn new(input: &str) -> (r: CharStream)
        ensures
            r.wf(),
            r.chars() == input@,
            r.pos() == 0,
    {
        let n = input.unicode_len();
        let mut chars: Vec<char> = Vec::new();
        let mut i: usize = 0;
        while i < n
            invariant
                n == input@.len(),
                i <= n,
                chars@ == input@.subrange(0, i as int),
            decreases n - i,
        {
            chars.push(input.get_char(i));
            i = i + 1;
            assert(chars@ =~= input@.subrange(0, i as int));
        }
        assert(chars@ =~= input@);
        CharStream { chars, pos: 0 }
    }

    /// Reads the next character.
    pub fn next(&mut self) -> (r: Option<char>)
        requires
            old(self).wf(),
        ensures
            final(self).wf(),
            final(self).chars() == old(self).chars(),
            old(self).pos() < old(self).chars().len() ==> r == Some(old(self).chars()[old(self).pos()])
                && final(self).pos() == old(self).pos() + 1,
            old(self).pos() >= old(self).chars().len() ==> r is None && final(self).pos() == old(self).pos(),
    {
        if self.pos < self.chars.len() {
            let c = self.chars[self.pos];
            self.pos = self.pos + 1;
            Some(c)
        } else {
            None
        }
    }
}

/// The next character of the stream without reading it; NUL at the end.
fn peek(chars: &CharStream) -> (c: char)
    requires
        chars.wf(),
    ensures
        chars.pos() < chars.chars().len() ==> c == chars.chars()[chars.pos()],
        chars.pos() >= chars.chars().len() ==> c == '\0',
{
    if chars.pos < chars.chars.len() {
        chars.chars[chars.pos]
    } else {
        '\0'
    }
}

fn token_from(lexeme: &str) -> (t: Token)
    ensures
        t@ == lexeme_token(lexeme@),
{
    let n = lexeme.unicode_len();
    if n == 2 {
        let a = lexeme.get_char(0);
        let b = lexeme.get_char(1);
        assert(lexeme@ =~= seq![a, b]);
        if b == '=' {
            if a == '<' {
                Token::LEQ
            } else if a == '>' {
                Token::GEQ
            } else if a == '!' {
                Token::NEQ
            } else if a == '=' {
                Token::EQ
            } else {
                Token::UNKNOWN
            }
        } else {
            Token::UNKNOWN
        }
    } else if n == 1 {
        let c = lexeme.get_char(0);
        assert(lexeme@ =~= seq![c]);
        if c == '<' { Token::LT }
        else if c == '>' { Token::GT }
        else if c == '!' { Token::BANG }
        else if c == '~' { Token::TILDE }
        else if c == ':' { Token::COLON }
        else if c == '+' { Token::PLUS }
        else if c == '-' { Token::DASH }
        else if c == '/' { Token::SLASH }
        else if c == '*' { Token::ASTERISK }
        else if c == '{' { Token::LBRACE }
        else if c == '}' { Token::RBRACE }
        else if c == ')' { Token::RPAREN }
        else if c == '(' { Token::LPAREN }
        else if c == '[' { Token::LBRACKET }
        else if c == ']' { Token::RBRACKET }
        else if c == '?' { Token::QUESTION }
        else if c == '&' { Token::AMPERSAND }
        else if c == ';' { Token::SEMICOLON }
        else if c == ',' { Token::COMMA }
        else if c == '=' { Token::ASSIGN }
        else { Token::UNKNOWN }
    } else {
        Token::UNKNOWN
    }
}

fn is_punctuator(c: char) -> (r: bool)
    ensures
        r == is_punctuator_char(c),
{
    c == '(' || c == ')' || c == '[' || c == ']' || c == '{' || c == '}' || c == '+' || c == '-'
        || c == '/' || c == '*' || c == '=' || c == '<' || c == '>' || c == '?' || c == '&'
        || c == '!' || c == '~' || c == ':' || c == ';' || c == ','
}

fn is_digit(c: char) -> (r: bool)
    ensures
        r == is_digit_char(c),
{
    '0' <= c && c <= '9'
}

fn is_alpha(c: char) -> (r: bool)
    ensures
        r == is_alpha_char(c),
{
    ('a' <= c && c <= 'z') || ('A' <= c && c <= 'Z')
}

fn is_alphanumeric(c: char) -> (r: bool)
    ensures
        r == is_alphanumeric_char(c),
{
    is_digit(c) || is_alpha(c) || c == '_'
}

/// A one-character string.
fn char_string(c: char) -> (s: String)
    ensures
        s@ == seq![c],
{
    let mut s = String::new();
    push_char(&mut s, c);
    assert(s@ =~= seq![c]);
    s
}

/// Reads a punctuator that may be followed by `=`, the first character
/// `c` having been read already.
fn punctuator_eq(c: char, chars: &mut CharStream) -> (t: Token)
    requires
        old(chars).wf(),
        1 <= old(chars).pos(),
        old(chars).chars()[old(chars).pos() - 1] == c,
        c == '>' || c == '<' || c == '!' || c == '=',
    ensures
        final(chars).wf(),
        final(chars).chars() == old(chars).chars(),
        (t@, final(chars).pos()) == punctuator_step(old(chars).chars(), old(chars).pos() - 1),
{
    let peeked = peek(chars);
    if peeked == '=' {
        let peeked = chars.next();
        let mut lexeme = char_string(c);
        push_char(&mut lexeme, '=');
        assert(lexeme@ =~= seq![c, '=']);
        token_from(lexeme.as_str())
    } else {
        let lexeme = char_string(c);
        token_from(lexeme.as_str())
    }
}

/// Reads a punctuator, the first character `c` having been read already.
fn handle_punctuator(c: char, chars: &mut CharStream) -> (t: Token)
    requires
        old(chars).wf(),
        1 <= old(chars).pos(),
        old(chars).chars()[old(chars).pos() - 1] == c,
        is_punctuator_char(c),
    ensures
        final(chars).wf(),
        final(chars).chars() == old(chars).chars(),
        (t@, final(chars).pos()) == punctuator_step(old(chars).chars(), old(chars).pos() - 1),
{
    if c == '>' || c == '<' || c == '!' || c == '=' {
        punctuator_eq(c, chars)
    } else {
        let lexeme = char_string(c);
        token_from(lexeme.as_str())
    }
}

fn digit_of(c: char) -> (d: u64)
    requires
        is_digit_char(c),
    ensures
        d == digit_value(c),
        d < 10,
{
    (c as u32 - '0' as u32) as u64
}

/// Reads a number, the first digit `c` having been read already; `None`
/// when its value does not fit in 64 bits.
fn handle_number(c: char, chars: &mut CharStream) -> (r: Option<Token>)
    requires
        old(chars).wf(),
        1 <= old(chars).pos(),
        old(chars).chars()[old(chars).pos() - 1] == c,
        is_digit_char(c),
    ensures
        final(chars).wf(),
        final(chars).chars() == old(chars).chars(),
        ({
            let s = old(chars).chars();
            let i = old(chars).pos() - 1;
            let j = digit_run_end(s, i + 1);
            let v = digits_value(s.subrange(i, j));
            &&& v <= u64::MAX ==> r == Some(Token::NUMBER(v as u64)) && final(chars).pos() == j
            &&& v > u64::MAX ==> r is None
        }),
{
    let ghost s = chars.chars();
    let ghost i = chars.pos() - 1;
    let ghost j = digit_run_end(s, i + 1);
    proof {
        lemma_digit_run_end_bounds(s, i + 1);
        assert(s.subrange(i, i + 1).drop_last() =~= Seq::<char>::empty());
        assert(digits_value(Seq::<char>::empty()) == 0);
    }
    let mut number: u64 = digit_of(c);
    while is_digit(peek(chars))
        invariant
            chars.wf(),
            chars.chars() == s,
            s == old(chars).chars(),
            i == old(chars).pos() - 1,
            j == digit_run_end(s, i + 1),
            0 <= i,
            i + 1 <= chars.pos() <= j,
            j <= s.len(),
            forall|m: int| i + 1 <= m < j ==> is_digit_char(#[trigger] s[m]),
            j < s.len() ==> !is_digit_char(s[j]),
            number == digits_value(s.subrange(i, chars.pos())),
        decreases s.len() - chars.pos(),
    {
        let ghost k = chars.pos();
        let n = match chars.next() {
            Some(n) => n,
            None => { return None; },
        };
        assert(k < j);
        assert(s.subrange(i, k + 1).drop_last() =~= s.subrange(i, k));
        let d = digit_of(n);
        let next = match number.checked_mul(10) {
            Some(m) => m.checked_add(d),
            None => None,
        };
        match next {
            Some(v) => {
                number = v;
            },
            None => {
                proof {
                    lemma_digits_value_grows(s.subrange(i, j), k + 1 - i);
                    assert(s.subrange(i, j).subrange(0, k + 1 - i) =~= s.subrange(i, k + 1));
                }
                return None;
            },
        }
    }
    Some(Token::NUMBER(number))
}

fn handle_keyword(word: &str) -> (r: Option<Token>)
    ensures
        match keyword_token(word@) {
            Some(k) => r matches Some(t) && t@ == k,
            None => r is None,
        },
{
    if str_eq(word, "if") {
        Some(Token::IF)
    } else if str_eq(word, "return") {
        Some(Token::RETURN)
    } else if str_eq(word, "fn") {
        Some(Token::FN)
    } else if str_eq(word, "var") {
        Some(Token::VAR)
    } else if str_eq(word, "for") {
        Some(Token::FOR)
    } else if str_eq(word, "else") {
        Some(Token::ELSE)
    } else if str_eq(word, "true") {
        Some(Token::TRUE)
    } else if str_eq(word, "false") {
        Some(Token::FALSE)
    } else {
        None
    }
}

/// The tokens of `input`, ending with `EOF`; `None` when a number in it
/// does not fit in 64 bits.
pub fn try_lex(input: String) -> (r: Option<Vec<Token>>)
    ensures
        match lex_spec(input@) {
            Some(ts) => r matches Some(tokens) && tokens_view(tokens@) == ts,
            None => r is None,
        },
{
    let ghost s = input@;
    let mut tokens: Vec<Token> = Vec::new();
    let mut chars = CharStream::new(input.as_str());
    assert(tokens_view(tokens@) =~= Seq::<SpecToken>::empty());
    loop
        invariant
            chars.wf(),
            chars.chars() == s,
            s == input@,
            match lex_from(s, chars.pos()) {
                Some(rest) => lex_from(s, 0) == Some(tokens_view(tokens@) + rest),
                None => lex_from(s, 0) is None,
            },
        ensures
            chars.pos() == s.len(),
            chars.chars() == s,
            s == input@,
            match lex_from(s, chars.pos()) {
                Some(rest) => lex_from(s, 0) == Some(tokens_view(tokens@) + rest),
                None => lex_from(s, 0) is None,
            },
        decreases s.len() - chars.pos(),
    {
        let ghost i = chars.pos();
        let c = match chars.next() {
            Some(c) => c,
            None => { break; },
        };
        let ghost tv = tokens_view(tokens@);
        if is_punctuator(c) {
            let t = handle_punctuator(c, &mut chars);
            tokens.push(t);
            assert(tokens_view(tokens@) =~= tv.push(t@));
            proof {
                match lex_from(s, chars.pos()) {
                    Some(rest) => { assert(tv + (seq![t@] + rest) =~= tv.push(t@) + rest); },
                    None => {},
                }
            }
            continue;
        }
        if is_digit(c) {
            proof { lemma_digit_run_end_bounds(s, i + 1); }
            match handle_number(c, &mut chars) {
                Some(t) => {
                    tokens.push(t);
                    assert(tokens_view(tokens@) =~= tv.push(t@));
                    proof {
                        match lex_from(s, chars.pos()) {
                            Some(rest) => { assert(tv + (seq![t@] + rest) =~= tv.push(t@) + rest); },
                            None => {},
                        }
                    }
                },
                None => {
                    assert(lex_from(s, i) is None);
                    return None;
                },
            }
            continue;
        }
        if is_alpha(c) {
            let ghost j = alnum_run_end(s, i + 1);
            proof { lemma_alnum_run_end_bounds(s, i + 1); }
            let mut word = char_string(c);
            assert(word@ =~= s.subrange(i, i + 1));
            while is_alphanumeric(peek(&chars))
                invariant
                    chars.wf(),
                    chars.chars() == s,
                    j == alnum_run_end(s, i + 1),
                    0 <= i,
                    i + 1 <= chars.pos() <= j,
                    j <= s.len(),
                    forall|m: int| i + 1 <= m < j ==> is_alphanumeric_char(#[trigger] s[m]),
                    j < s.len() ==> !is_alphanumeric_char(s[j]),
                    word@ == s.subrange(i, chars.pos()),
                decreases s.len() - chars.pos(),
            {
                let ghost k = chars.pos();
                match chars.next() {
                    Some(c) => {
                        push_char(&mut word, c);
                        assert(word@ =~= s.subrange(i, k + 1));
                    },
                    None => {},
                }
            }
            let t = match handle_keyword(word.as_str()) {
                Some(tok) => tok,
                None => Token::IDENTIFIER(word),
            };
            tokens.push(t);
            assert(tokens_view(tokens@) =~= tv.push(t@));
            proof {
                match lex_from(s, chars.pos()) {
                    Some(rest) => { assert(tv + (seq![t@] + rest) =~= tv.push(t@) + rest); },
                    None => {},
                }
            }
        }
    }
    tokens.push(Token::EOF);
    proof {
        assert(tokens_view(tokens@) =~= tokens_view(tokens@.drop_last()).push(SpecToken::EOF));
    }
    Some(tokens)
}

// ---------------------------------------------------------------------------
// What the lexer promises of its tokens

/// A token that the lexer produces before `EOF`: an identifier is a letter followed by
/// letters, digits and underscores and is no keyword; `UNKNOWN` and `EOF` never occur.
pub open spec fn lexable_token(t: SpecToken) -> bool {
    match t {
        SpecToken::IDENTIFIER(w) => {
            &&& w.len() > 0
            &&& is_alpha_char(w[0])
            &&& forall|m: int| 0 <= m < w.len() ==> is_alphanumeric_char(#[trigger] w[m])
            &&& keyword_token(w) is None
        },
        SpecToken::UNKNOWN | SpecToken::EOF => false,
        _ => true,
    }
}

proof fn lemma_pair_eq(a: char, b: char, c: char, d: char)
    ensures
        (seq![a, b] == seq![c, d]) <==> (a == c && b == d),
{
    if seq![a, b] == seq![c, d] {
        assert(seq![a, b][0] == seq![c, d][0]);
        assert(seq![a, b][1] == seq![c, d][1]);
    }
    if a == c && b == d {
        assert(seq![a, b] =~= seq![c, d]);
    }
}

proof fn lemma_punctuator_step_lexable(s: Seq<char>, i: int)
    requires
        0 <= i < s.len(),
        is_punctuator_char(s[i]),
    ensures
        lexable_token(punctuator_step(s, i).0),
        i < punctuator_step(s, i).1 <= s.len(),
{
    let c = s[i];
    lemma_pair_eq(c, '=', '<', '=');
    lemma_pair_eq(c, '=', '>', '=');
    lemma_pair_eq(c, '=', '!', '=');
    lemma_pair_eq(c, '=', '=', '=');
    assert(seq![c].len() == 1);
    assert(seq![c][0] == c);
}

proof fn lemma_lex_from_lexable(s: Seq<char>, i: int)
    requires
        0 <= i <= s.len(),
    ensures
        lex_from(s, i) matches Some(ts) ==> {
            &&& ts.len() >= 1
            &&& ts.last() == SpecToken::EOF
            &&& forall|k: int| 0 <= k < ts.len() - 1 ==> lexable_token(#[trigger] ts[k])
        },
    decreases s.len() - i,
{
    if i < s.len() {
        let c = s[i];
        if is_punctuator_char(c) {
            lemma_punctuator_step_lexable(s, i);
            let (t, j) = punctuator_step(s, i);
            lemma_lex_from_lexable(s, j);
            if let Some(rest) = lex_from(s, j) {
                let ts = seq![t] + rest;
                assert forall|k: int| 0 <= k < ts.len() - 1 implies lexable_token(#[trigger] ts[k]) by {
                    if k > 0 {
                        assert(ts[k] == rest[k - 1]);
                    }
                }
            }
        } else if is_digit_char(c) {
            lemma_digit_run_end_bounds(s, i + 1);
            let j = digit_run_end(s, i + 1);
            lemma_lex_from_lexable(s, j);
            let v = digits_value(s.subrange(i, j));
            if v <= u64::MAX {
                if let Some(rest) = lex_from(s, j) {
                    let ts = seq![SpecToken::NUMBER(v as u64)] + rest;
                    assert forall|k: int| 0 <= k < ts.len() - 1 implies lexable_token(#[trigger] ts[k]) by {
                        if k > 0 {
                            assert(ts[k] == rest[k - 1]);
                        }
                    }
                }
            }
        } else if is_alpha_char(c) {
            lemma_alnum_run_end_bounds(s, i + 1);
            let j = alnum_run_end(s, i + 1);
            lemma_lex_from_lexable(s, j);
            let w = s.subrange(i, j);
            let t = match keyword_token(w) {
                Some(k) => k,
                None => SpecToken::IDENTIFIER(w),
            };
            assert(lexable_token(t)) by {
                if keyword_token(w) is None {
                    assert(w[0] == c);
                    assert forall|m: int| 0 <= m < w.len() implies is_alphanumeric_char(#[trigger] w[m]) by {
                        assert(w[m] == s[i + m]);
                    }
                }
            }
            if let Some(rest) = lex_from(s, j) {
                let ts = seq![t] + rest;
                assert forall|k: int| 0 <= k < ts.len() - 1 implies lexable_token(#[trigger] ts[k]) by {
                    if k > 0 {
                        assert(ts[k] == rest[k - 1]);
                    }
                }
            }
        } else {
            lemma_lex_from_lexable(s, i + 1);
        }
    }
}

/// The lexer's tokens end with the one `EOF`; before it stand only identifiers (a letter and
/// then letters, digits or underscores, no keyword), numbers, keywords and punctuators
/// (the comma among them): no `UNKNOWN`.
pub proof fn law_lex_well_formed(s: Seq<char>)
    ensures
        lex_spec(s) matches Some(ts) ==> {
            &&& ts.len() >= 1
            &&& ts.last() == SpecToken::EOF
            &&& forall|k: int| 0 <= k < ts.len() - 1 ==> lexable_token(#[trigger] ts[k])
            &&& forall|k: int| 0 <= k < ts.len() - 1 ==> #[trigger] ts[k] != SpecToken::EOF
                && ts[k] != SpecToken::UNKNOWN
        },
{
    lemma_lex_from_lexable(s, 0);
    if let Some(ts) = lex_spec(s) {
        assert forall|k: int| 0 <= k < ts.len() - 1 implies #[trigger] ts[k] != SpecToken::EOF
            && ts[k] != SpecToken::UNKNOWN by {
            assert(lexable_token(ts[k]));
        }
    }
}

/// `decimal(n)` is a nonempty run of digits worth `n`.
proof fn lemma_decimal_digits(n: nat)
    ensures
        decimal(n).len() >= 1,
        forall|m: int| 0 <= m < decimal(n).len() ==> is_digit_char(#[trigger] decimal(n)[m]),
        digits_value(decimal(n)) == n,
    decreases n,
{
    if n >= 10 {
        lemma_decimal_digits(n / 10);
        let d = decimal(n);
        assert(d.drop_last() =~= decimal(n / 10));
        assert(d.last() == digit_char(n % 10));
        assert(digit_value(digit_char(n % 10)) == n % 10);
        assert(n == (n / 10) * 10 + n % 10);
        assert(digits_value(d) == digits_value(d.drop_last()) * 10 + digit_value(d.last()));
    } else {
        let d = decimal(n);
        assert(digit_value(digit_char(n)) == n);
        assert(d.drop_last() =~= Seq::<char>::empty());
        assert(digits_value(d.drop_last()) == 0);
        assert(digits_value(d) == digits_value(d.drop_last()) * 10 + digit_value(d.last()));
    }
}

proof fn lemma_digit_run_to_end(s: Seq<char>, k: int)
    requires
        0 <= k <= s.len(),
        forall|m: int| k <= m < s.len() ==> is_digit_char(#[trigger] s[m]),
    ensures
        digit_run_end(s, k) == s.len(),
    decreases s.len() - k,
{
    if k < s.len() {
        lemma_digit_run_to_end(s, k + 1);
    }
}

proof fn lemma_alnum_run_to_end(s: Seq<char>, k: int)
    requires
        0 <= k <= s.len(),
        forall|m: int| k <= m < s.len() ==> is_alphanumeric_char(#[trigger] s[m]),
    ensures
        alnum_run_end(s, k) == s.len(),
    decreases s.len() - k,
{
    if k < s.len() {
        lemma_alnum_run_to_end(s, k + 1);
    }
}

proof fn lemma_end_of_input(s: Seq<char>)
    ensures
        lex_from(s, s.len() as int) == Some(seq![SpecToken::EOF]),
{
}

proof fn lemma_single_punctuator_lexes_back(c: char)
    requires
        is_punctuator_char(c),
    ensures
        lex_spec(seq![c]) == Some(seq![single_char_token(c), SpecToken::EOF]),
{
    let s = seq![c];
    lemma_end_of_input(s);
    assert(s[0] == c);
    lemma_pair_eq(c, c, '<', '=');
    assert(!(s =~= seq!['<', '='])) by { assert(s.len() != 2); }
    assert(!(s =~= seq!['>', '='])) by { assert(s.len() != 2); }
    assert(!(s =~= seq!['!', '='])) by { assert(s.len() != 2); }
    assert(!(s =~= seq!['=', '='])) by { assert(s.len() != 2); }
    assert(punctuator_step(s, 0) == (single_char_token(c), 1int));
    assert(seq![single_char_token(c)] + seq![SpecToken::EOF]
        =~= seq![single_char_token(c), SpecToken::EOF]);
}

proof fn lemma_double_punctuator_lexes_back(c: char)
    requires
        c == '<' || c == '>' || c == '!' || c == '=',
    ensures
        lex_spec(seq![c, '=']) == Some(seq![lexeme_token(seq![c, '=']), SpecToken::EOF]),
{
    let s = seq![c, '='];
    lemma_end_of_input(s);
    assert(s[0] == c && s[1] == '=');
    assert(s =~= seq![s[0], '=']);
    assert(punctuator_step(s, 0) == (lexeme_token(seq![c, '=']), 2int));
    assert(seq![lexeme_token(seq![c, '='])] + seq![SpecToken::EOF]
        =~= seq![lexeme_token(seq![c, '=']), SpecToken::EOF]);
}

proof fn lemma_word_lexes_back(w: Seq<char>)
    requires
        w.len() > 0,
        is_alpha_char(w[0]),
        forall|m: int| 0 <= m < w.len() ==> is_alphanumeric_char(#[trigger] w[m]),
    ensures
        lex_spec(w) == Some(seq![
            match keyword_token(w) {
                Some(k) => k,
                None => SpecToken::IDENTIFIER(w),
            },
            SpecToken::EOF,
        ]),
{
    lemma_alnum_run_to_end(w, 1);
    lemma_end_of_input(w);
    assert(w.subrange(0, w.len() as int) =~= w);
    let t = match keyword_token(w) {
        Some(k) => k,
        None => SpecToken::IDENTIFIER(w),
    };
    assert(seq![t] + seq![SpecToken::EOF] =~= seq![t, SpecToken::EOF]);
}

proof fn lemma_keyword_lexes_back(w: Seq<char>)
    requires
        w.len() > 0,
        forall|m: int| 0 <= m < w.len() ==> is_alpha_char(#[trigger] w[m]),
        keyword_token(w) is Some,
    ensures
        lex_spec(w) == Some(seq![keyword_token(w)->0, SpecToken::EOF]),
{
    assert(is_alpha_char(w[0]));
    assert forall|m: int| 0 <= m < w.len() implies is_alphanumeric_char(#[trigger] w[m]) by {
        assert(is_alpha_char(w[m]));
    }
    lemma_word_lexes_back(w);
}

/// The source text of a token that the lexer produces lexes back to that token alone:
/// `lex(get_literal(t))` is `t` followed by `EOF`.
pub proof fn law_literal_lexes_back(t: SpecToken)
    requires
        lexable_token(t),
    ensures
        lex_spec(token_literal(t)) == Some(seq![t, SpecToken::EOF]),
{
    match t {
        SpecToken::NUMBER(n) => {
            let s = decimal(n as nat);
            lemma_decimal_digits(n as nat);
            lemma_digit_run_to_end(s, 1);
            lemma_end_of_input(s);
            assert(s.subrange(0, s.len() as int) =~= s);
            assert(is_digit_char(s[0]));
            assert(seq![SpecToken::NUMBER(n)] + seq![SpecToken::EOF]
                =~= seq![SpecToken::NUMBER(n), SpecToken::EOF]);
        },
        SpecToken::IDENTIFIER(w) => {
            lemma_word_lexes_back(w);
        },
        SpecToken::LPAREN => {
            reveal_strlit("(");
            assert("("@ =~= seq!['(']);
            lemma_single_punctuator_lexes_back('(');
        },
        SpecToken::RPAREN => {
            reveal_strlit(")");
            assert(")"@ =~= seq![')']);
            lemma_single_punctuator_lexes_back(')');
        },
        SpecToken::LBRACKET => {
            reveal_strlit("[");
            assert("["@ =~= seq!['[']);
            lemma_single_punctuator_lexes_back('[');
        },
        SpecToken::RBRACKET => {
            reveal_strlit("]");
            assert("]"@ =~= seq![']']);
            lemma_single_punctuator_lexes_back(']');
        },
        SpecToken::LBRACE => {
            reveal_strlit("{");
            assert("{"@ =~= seq!['{']);
            lemma_single_punctuator_lexes_back('{');
        },
        SpecToken::RBRACE => {
            reveal_strlit("}");
            assert("}"@ =~= seq!['}']);
            lemma_single_punctuator_lexes_back('}');
        },
        SpecToken::SEMICOLON => {
            reveal_strlit(";");
            assert(";"@ =~= seq![';']);
            lemma_single_punctuator_lexes_back(';');
        },
        SpecToken::COLON => {
            reveal_strlit(":");
            assert(":"@ =~= seq![':']);
            lemma_single_punctuator_lexes_back(':');
        },
        SpecToken::COMMA => {
            reveal_strlit(",");
            assert(","@ =~= seq![',']);
            lemma_single_punctuator_lexes_back(',');
        },
        SpecToken::PLUS => {
            reveal_strlit("+");
            assert("+"@ =~= seq!['+']);
            lemma_single_punctuator_lexes_back('+');
        },
        SpecToken::DASH => {
            reveal_strlit("-");
            assert("-"@ =~= seq!['-']);
            lemma_single_punctuator_lexes_back('-');
        },
        SpecToken::ASTERISK => {
            reveal_strlit("*");
            assert("*"@ =~= seq!['*']);
            lemma_single_punctuator_lexes_back('*');
        },
        SpecToken::SLASH => {
            reveal_strlit("/");
            assert("/"@ =~= seq!['/']);
            lemma_single_punctuator_lexes_back('/');
        },
        SpecToken::ASSIGN => {
            reveal_strlit("=");
            assert("="@ =~= seq!['=']);
            lemma_single_punctuator_lexes_back('=');
        },
        SpecToken::BANG => {
            reveal_strlit("!");
            assert("!"@ =~= seq!['!']);
            lemma_single_punctuator_lexes_back('!');
        },
        SpecToken::TILDE => {
            reveal_strlit("~");
            assert("~"@ =~= seq!['~']);
            lemma_single_punctuator_lexes_back('~');
        },
        SpecToken::LT => {
            reveal_strlit("<");
            assert("<"@ =~= seq!['<']);
            lemma_single_punctuator_lexes_back('<');
        },
        SpecToken::GT => {
            reveal_strlit(">");
            assert(">"@ =~= seq!['>']);
            lemma_single_punctuator_lexes_back('>');
        },
        SpecToken::LEQ => {
            reveal_strlit("<=");
            assert("<="@ =~= seq!['<', '=']);
            lemma_double_punctuator_lexes_back('<');
        },
        SpecToken::GEQ => {
            reveal_strlit(">=");
            assert(">="@ =~= seq!['>', '=']);
            lemma_double_punctuator_lexes_back('>');
        },
        SpecToken::EQ => {
            reveal_strlit("==");
            assert("=="@ =~= seq!['=', '=']);
            lemma_double_punctuator_lexes_back('=');
        },
        SpecToken::NEQ => {
            reveal_strlit("!=");
            assert("!="@ =~= seq!['!', '=']);
            lemma_double_punctuator_lexes_back('!');
        },
        SpecToken::QUESTION => {
            reveal_strlit("?");
            assert("?"@ =~= seq!['?']);
            lemma_single_punctuator_lexes_back('?');
        },
        SpecToken::AMPERSAND => {
            reveal_strlit("&");
            assert("&"@ =~= seq!['&']);
            lemma_single_punctuator_lexes_back('&');
        },
        SpecToken::FN => {
            reveal_strlit("if"); reveal_strlit("return"); reveal_strlit("fn"); reveal_strlit("var"); reveal_strlit("for"); reveal_strlit("else"); reveal_strlit("true"); reveal_strlit("false");
            lemma_keyword_lexes_back("fn"@);
        },
        SpecToken::RETURN => {
            reveal_strlit("if"); reveal_strlit("return"); reveal_strlit("fn"); reveal_strlit("var"); reveal_strlit("for"); reveal_strlit("else"); reveal_strlit("true"); reveal_strlit("false");
            lemma_keyword_lexes_back("return"@);
        },
        SpecToken::VAR => {
            reveal_strlit("if"); reveal_strlit("return"); reveal_strlit("fn"); reveal_strlit("var"); reveal_strlit("for"); reveal_strlit("else"); reveal_strlit("true"); reveal_strlit("false");
            lemma_keyword_lexes_back("var"@);
        },
        SpecToken::FOR => {
            reveal_strlit("if"); reveal_strlit("return"); reveal_strlit("fn"); reveal_strlit("var"); reveal_strlit("for"); reveal_strlit("else"); reveal_strlit("true"); reveal_strlit("false");
            lemma_keyword_lexes_back("for"@);
        },
        SpecToken::IF => {
            reveal_strlit("if"); reveal_strlit("return"); reveal_strlit("fn"); reveal_strlit("var"); reveal_strlit("for"); reveal_strlit("else"); reveal_strlit("true"); reveal_strlit("false");
            lemma_keyword_lexes_back("if"@);
        },
        SpecToken::ELSE => {
            reveal_strlit("if"); reveal_strlit("return"); reveal_strlit("fn"); reveal_strlit("var"); reveal_strlit("for"); reveal_strlit("else"); reveal_strlit("true"); reveal_strlit("false");
            lemma_keyword_lexes_back("else"@);
        },
        SpecToken::TRUE => {
            reveal_strlit("if"); reveal_strlit("return"); reveal_strlit("fn"); reveal_strlit("var"); reveal_strlit("for"); reveal_strlit("else"); reveal_strlit("true"); reveal_strlit("false");
            lemma_keyword_lexes_back("true"@);
        },
        SpecToken::FALSE => {
            reveal_strlit("if"); reveal_strlit("return"); reveal_strlit("fn"); reveal_strlit("var"); reveal_strlit("for"); reveal_strlit("else"); reveal_strlit("true"); reveal_strlit("false");
            lemma_keyword_lexes_back("false"@);
        },
        _ => {},
    }
}

/// The tokens of one piece of text followed by those of another: the first piece's tokens
/// without their `EOF`, then the second's; `None` when either piece has none.
pub open spec fn join_tokens(x: Option<Seq<SpecToken>>, y: Option<Seq<SpecToken>>) -> Option<Seq<SpecToken>> {
    match x {
        Some(xs) => match y {
            Some(ys) => Some(xs.drop_last() + ys),
            None => None,
        },
        None => None,
    }
}

/// A character that neither starts nor continues a token, such as a space.
pub open spec fn is_separator_char(c: char) -> bool {
    !is_punctuator_char(c) && !is_alphanumeric_char(c)
}

proof fn lemma_digit_run_shift(p: Seq<char>, b: Seq<char>, k: int)
    requires
        0 <= k <= b.len(),
    ensures
        digit_run_end(p + b, p.len() + k) == p.len() + digit_run_end(b, k),
    decreases b.len() - k,
{
    if k < b.len() {
        assert((p + b)[p.len() + k] == b[k]);
        lemma_digit_run_shift(p, b, k + 1);
    }
}

proof fn lemma_alnum_run_shift(p: Seq<char>, b: Seq<char>, k: int)
    requires
        0 <= k <= b.len(),
    ensures
        alnum_run_end(p + b, p.len() + k) == p.len() + alnum_run_end(b, k),
    decreases b.len() - k,
{
    if k < b.len() {
        assert((p + b)[p.len() + k] == b[k]);
        lemma_alnum_run_shift(p, b, k + 1);
    }
}

/// What stands before a piece of text does not change how the piece lexes.
proof fn lemma_lex_from_shift(p: Seq<char>, b: Seq<char>, j: int)
    requires
        0 <= j <= b.len(),
    ensures
        lex_from(p + b, p.len() + j) == lex_from(b, j),
    decreases b.len() - j,
{
    let s = p + b;
    let i = p.len() + j;
    if j < b.len() {
        let c = b[j];
        assert(s[i] == c);
        if is_punctuator_char(c) {
            let (t, k) = punctuator_step(b, j);
            if j + 1 < b.len() {
                assert(s[i + 1] == b[j + 1]);
            }
            assert(punctuator_step(s, i) == (t, p.len() + k));
            lemma_punctuator_step_lexable(b, j);
            lemma_lex_from_shift(p, b, k);
        } else if is_digit_char(c) {
            lemma_digit_run_end_bounds(b, j + 1);
            lemma_digit_run_shift(p, b, j + 1);
            let k = digit_run_end(b, j + 1);
            assert(s.subrange(i, p.len() + k) =~= b.subrange(j, k));
            lemma_lex_from_shift(p, b, k);
        } else if is_alpha_char(c) {
            lemma_alnum_run_end_bounds(b, j + 1);
            lemma_alnum_run_shift(p, b, j + 1);
            let k = alnum_run_end(b, j + 1);
            assert(s.subrange(i, p.len() + k) =~= b.subrange(j, k));
            lemma_lex_from_shift(p, b, k);
        } else {
            lemma_lex_from_shift(p, b, j + 1);
        }
    }
}

proof fn lemma_digit_run_prefix(a: Seq<char>, c: char, b: Seq<char>, k: int)
    requires
        0 <= k <= a.len(),
        is_separator_char(c),
    ensures
        digit_run_end(a + seq![c] + b, k) == digit_run_end(a, k),
    decreases a.len() - k,
{
    let s = a + seq![c] + b;
    if k < a.len() {
        assert(s[k] == a[k]);
        lemma_digit_run_prefix(a, c, b, k + 1);
    } else {
        assert(s[k] == c);
    }
}

proof fn lemma_alnum_run_prefix(a: Seq<char>, c: char, b: Seq<char>, k: int)
    requires
        0 <= k <= a.len(),
        is_separator_char(c),
    ensures
        alnum_run_end(a + seq![c] + b, k) == alnum_run_end(a, k),
    decreases a.len() - k,
{
    let s = a + seq![c] + b;
    if k < a.len() {
        assert(s[k] == a[k]);
        lemma_alnum_run_prefix(a, c, b, k + 1);
    } else {
        assert(s[k] == c);
    }
}

proof fn lemma_join_cons(t: SpecToken, x: Option<Seq<SpecToken>>, y: Option<Seq<SpecToken>>)
    requires
        x matches Some(xs) ==> xs.len() >= 1,
    ensures
        join_tokens(
            match x { Some(xs) => Some(seq![t] + xs), None => None },
            y,
        ) == match join_tokens(x, y) { Some(zs) => Some(seq![t] + zs), None => None },
{
    if let Some(xs) = x {
        if let Some(ys) = y {
            assert((seq![t] + xs).drop_last() + ys =~= seq![t] + (xs.drop_last() + ys));
        }
    }
}

/// Lexing `a`, a separator and `b` from index `i` within `a` goes as in `a` alone up to the
/// separator, and then goes on with what follows the separator.
proof fn lemma_lex_from_prefix(a: Seq<char>, c: char, b: Seq<char>, i: int)
    requires
        0 <= i <= a.len(),
        is_separator_char(c),
    ensures
        lex_from(a + seq![c] + b, i) == join_tokens(lex_from(a, i), lex_from(a + seq![c] + b, a.len() as int)),
    decreases a.len() - i,
{
    let s = a + seq![c] + b;
    let n = a.len() as int;
    if i == n {
        if let Some(ys) = lex_from(s, n) {
            assert(seq![SpecToken::EOF].drop_last() + ys =~= ys);
        }
    } else {
        let c0 = a[i];
        assert(s[i] == c0);
        if is_punctuator_char(c0) {
            let (t, j) = punctuator_step(a, i);
            if i + 1 < n {
                assert(s[i + 1] == a[i + 1]);
            } else {
                assert(s[i + 1] == c);
            }
            assert(punctuator_step(s, i) == (t, j));
            lemma_punctuator_step_lexable(a, i);
            lemma_lex_from_prefix(a, c, b, j);
            lemma_lex_from_lexable(a, j);
            lemma_join_cons(t, lex_from(a, j), lex_from(s, n));
        } else if is_digit_char(c0) {
            lemma_digit_run_end_bounds(a, i + 1);
            lemma_digit_run_prefix(a, c, b, i + 1);
            let j = digit_run_end(a, i + 1);
            assert(s.subrange(i, j) =~= a.subrange(i, j));
            lemma_lex_from_prefix(a, c, b, j);
            lemma_lex_from_lexable(a, j);
            let v = digits_value(a.subrange(i, j));
            lemma_join_cons(SpecToken::NUMBER(v as u64), lex_from(a, j), lex_from(s, n));
        } else if is_alpha_char(c0) {
            lemma_alnum_run_end_bounds(a, i + 1);
            lemma_alnum_run_prefix(a, c, b, i + 1);
            let j = alnum_run_end(a, i + 1);
            assert(s.subrange(i, j) =~= a.subrange(i, j));
            lemma_lex_from_prefix(a, c, b, j);
            lemma_lex_from_lexable(a, j);
            let w = a.subrange(i, j);
            let t = match keyword_token(w) {
                Some(k) => k,
                None => SpecToken::IDENTIFIER(w),
            };
            lemma_join_cons(t, lex_from(a, j), lex_from(s, n));
        } else {
            lemma_lex_from_prefix(a, c, b, i + 1);
        }
    }
}

/// Lexing `a`, a separator and `b` gives the tokens of `a`, without its `EOF`, then those of `b`.
proof fn lemma_lex_around_separator(a: Seq<char>, c: char, b: Seq<char>)
    requires
        is_separator_char(c),
    ensures
        lex_spec(a + seq![c] + b) == join_tokens(lex_spec(a), lex_spec(b)),
{
    let p = a + seq![c];
    let s = p + b;
    lemma_lex_from_prefix(a, c, b, 0);
    assert(s[a.len() as int] == c);
    assert(lex_from(s, a.len() as int) == lex_from(s, p.len() as int));
    lemma_lex_from_shift(p, b, 0);
}

/// Lexing two pieces of text joined by a space gives the tokens of the first piece, without its
/// `EOF`, followed by the tokens of the second.
pub proof fn law_lex_joined_by_space(a: Seq<char>, b: Seq<char>)
    ensures
        lex_spec(a + seq![' '] + b) == join_tokens(lex_spec(a), lex_spec(b)),
{
    lemma_lex_around_separator(a, ' ', b);
}

/// A character that neither starts nor continues a token acts like a space.
pub proof fn law_separator_is_space(a: Seq<char>, c: char, b: Seq<char>)
    requires
        is_separator_char(c),
    ensures
        lex_spec(a + seq![c] + b) == lex_spec(a + seq![' '] + b),
{
    lemma_lex_around_separator(a, c, b);
    lemma_lex_around_separator(a, ' ', b);
}

/// A token prints as its kind's name and its source text, in parentheses and apart by a comma:
/// `(PLUS, +)`; `UNKNOWN` and `EOF`, which have no source text, print an empty one.
pub proof fn law_token_text(t: SpecToken)
    ensures
        token_text(t) == "("@ + token_name(t) + ", "@
            + (if t is UNKNOWN || t is EOF { Seq::<char>::empty() } else { token_literal(t) }) + ")"@,
{
    match t {
        SpecToken::UNKNOWN => {
            reveal_strlit("(UNKNOWN, )"); reveal_strlit("("); reveal_strlit("UNKNOWN"); reveal_strlit(", "); reveal_strlit(")");
            assert(token_text(t) =~= "("@ + token_name(t) + ", "@ + Seq::<char>::empty() + ")"@);
        },
        SpecToken::IDENTIFIER(w) => {
            reveal_strlit("(IDENTIFIER, "); reveal_strlit("("); reveal_strlit("IDENTIFIER"); reveal_strlit(", ");
            assert(token_text(t) =~= "("@ + token_name(t) + ", "@ + w + ")"@);
        },
        SpecToken::NUMBER(n) => {
            reveal_strlit("(NUMBER, "); reveal_strlit("("); reveal_strlit("NUMBER"); reveal_strlit(", ");
            assert(token_text(t) =~= "("@ + token_name(t) + ", "@ + decimal(n as nat) + ")"@);
        },
        SpecToken::LPAREN => {
            reveal_strlit("(LPAREN, ()"); reveal_strlit("("); reveal_strlit("LPAREN"); reveal_strlit(", "); reveal_strlit(")"); reveal_strlit("(");
            assert(token_text(t) =~= "("@ + token_name(t) + ", "@ + "("@ + ")"@);
        },
        SpecToken::RPAREN => {
            reveal_strlit("(RPAREN, ))"); reveal_strlit("("); reveal_strlit("RPAREN"); reveal_strlit(", "); reveal_strlit(")"); reveal_strlit(")");
            assert(token_text(t) =~= "("@ + token_name(t) + ", "@ + ")"@ + ")"@);
        },
        SpecToken::LBRACKET => {
            reveal_strlit("(LBRACKET, [)"); reveal_strlit("("); reveal_strlit("LBRACKET"); reveal_strlit(", "); reveal_strlit(")"); reveal_strlit("[");
            assert(token_text(t) =~= "("@ + token_name(t) + ", "@ + "["@ + ")"@);
        },
        SpecToken::RBRACKET => {
            reveal_strlit("(RBRACKET, ])"); reveal_strlit("("); reveal_strlit("RBRACKET"); reveal_strlit(", "); reveal_strlit(")"); reveal_strlit("]");
            assert(token_text(t) =~= "("@ + token_name(t) + ", "@ + "]"@ + ")"@);
        },
        SpecToken::LBRACE => {
            reveal_strlit("(LBRACE, {)"); reveal_strlit("("); reveal_strlit("LBRACE"); reveal_strlit(", "); reveal_strlit(")"); reveal_strlit("{");
            assert(token_text(t) =~= "("@ + token_name(t) + ", "@ + "{"@ + ")"@);
        },
        SpecToken::RBRACE => {
            reveal_strlit("(RBRACE, })"); reveal_strlit("("); reveal_strlit("RBRACE"); reveal_strlit(", "); reveal_strlit(")"); reveal_strlit("}");
            assert(token_text(t) =~= "("@ + token_name(t) + ", "@ + "}"@ + ")"@);
        },
        SpecToken::SEMICOLON => {
            reveal_strlit("(SEMICOLON, ;)"); reveal_strlit("("); reveal_strlit("SEMICOLON"); reveal_strlit(", "); reveal_strlit(")"); reveal_strlit(";");
            assert(token_text(t) =~= "("@ + token_name(t) + ", "@ + ";"@ + ")"@);
        },
        SpecToken::COLON => {
            reveal_strlit("(COLON, :)"); reveal_strlit("("); reveal_strlit("COLON"); reveal_strlit(", "); reveal_strlit(")"); reveal_strlit(":");
            assert(token_text(t) =~= "("@ + token_name(t) + ", "@ + ":"@ + ")"@);
        },
        SpecToken::COMMA => {
            reveal_strlit("(COMMA, ,)"); reveal_strlit("("); reveal_strlit("COMMA"); reveal_strlit(", "); reveal_strlit(")"); reveal_strlit(",");
            assert(token_text(t) =~= "("@ + token_name(t) + ", "@ + ","@ + ")"@);
        },
        SpecToken::PLUS => {
            reveal_strlit("(PLUS, +)"); reveal_strlit("("); reveal_strlit("PLUS"); reveal_strlit(", "); reveal_strlit(")"); reveal_strlit("+");
            assert(token_text(t) =~= "("@ + token_name(t) + ", "@ + "+"@ + ")"@);
        },
        SpecToken::DASH => {
            reveal_strlit("(DASH, -)"); reveal_strlit("("); reveal_strlit("DASH"); reveal_strlit(", "); reveal_strlit(")"); reveal_strlit("-");
            assert(token_text(t) =~= "("@ + token_name(t) + ", "@ + "-"@ + ")"@);
        },
        SpecToken::ASTERISK => {
            reveal_strlit("(ASTERISK, *)"); reveal_strlit("("); reveal_strlit("ASTERISK"); reveal_strlit(", "); reveal_strlit(")"); reveal_strlit("*");
            assert(token_text(t) =~= "("@ + token_name(t) + ", "@ + "*"@ + ")"@);
        },
        SpecToken::SLASH => {
            reveal_strlit("(SLASH, /)"); reveal_strlit("("); reveal_strlit("SLASH"); reveal_strlit(", "); reveal_strlit(")"); reveal_strlit("/");
            assert(token_text(t) =~= "("@ + token_name(t) + ", "@ + "/"@ + ")"@);
        },
        SpecToken::ASSIGN => {
            reveal_strlit("(ASSIGN, =)"); reveal_strlit("("); reveal_strlit("ASSIGN"); reveal_strlit(", "); reveal_strlit(")"); reveal_strlit("=");
            assert(token_text(t) =~= "("@ + token_name(t) + ", "@ + "="@ + ")"@);
        },
        SpecToken::BANG => {
            reveal_strlit("(BANG, !)"); reveal_strlit("("); reveal_strlit("BANG"); reveal_strlit(", "); reveal_strlit(")"); reveal_strlit("!");
            assert(token_text(t) =~= "("@ + token_name(t) + ", "@ + "!"@ + ")"@);
        },
        SpecToken::TILDE => {
            reveal_strlit("(TILDE, ~)"); reveal_strlit("("); reveal_strlit("TILDE"); reveal_strlit(", "); reveal_strlit(")"); reveal_strlit("~");
            assert(token_text(t) =~= "("@ + token_name(t) + ", "@ + "~"@ + ")"@);
        },
        SpecToken::LT => {
            reveal_strlit("(LT, <)"); reveal_strlit("("); reveal_strlit("LT"); reveal_strlit(", "); reveal_strlit(")"); reveal_strlit("<");
            assert(token_text(t) =~= "("@ + token_name(t) + ", "@ + "<"@ + ")"@);
        },
        SpecToken::GT => {
            reveal_strlit("(GT, >)"); reveal_strlit("("); reveal_strlit("GT"); reveal_strlit(", "); reveal_strlit(")"); reveal_strlit(">");
            assert(token_text(t) =~= "("@ + token_name(t) + ", "@ + ">"@ + ")"@);
        },
        SpecToken::LEQ => {
            reveal_strlit("(LEQ, <=)"); reveal_strlit("("); reveal_strlit("LEQ"); reveal_strlit(", "); reveal_strlit(")"); reveal_strlit("<=");
            assert(token_text(t) =~= "("@ + token_name(t) + ", "@ + "<="@ + ")"@);
        },
        SpecToken::GEQ => {
            reveal_strlit("(GEQ, >=)"); reveal_strlit("("); reveal_strlit("GEQ"); reveal_strlit(", "); reveal_strlit(")"); reveal_strlit(">=");
            assert(token_text(t) =~= "("@ + token_name(t) + ", "@ + ">="@ + ")"@);
        },
        SpecToken::EQ => {
            reveal_strlit("(EQ, ==)"); reveal_strlit("("); reveal_strlit("EQ"); reveal_strlit(", "); reveal_strlit(")"); reveal_strlit("==");
            assert(token_text(t) =~= "("@ + token_name(t) + ", "@ + "=="@ + ")"@);
        },
        SpecToken::NEQ => {
            reveal_strlit("(NEQ, !=)"); reveal_strlit("("); reveal_strlit("NEQ"); reveal_strlit(", "); reveal_strlit(")"); reveal_strlit("!=");
            assert(token_text(t) =~= "("@ + token_name(t) + ", "@ + "!="@ + ")"@);
        },
        SpecToken::QUESTION => {
            reveal_strlit("(QUESTION, ?)"); reveal_strlit("("); reveal_strlit("QUESTION"); reveal_strlit(", "); reveal_strlit(")"); reveal_strlit("?");
            assert(token_text(t) =~= "("@ + token_name(t) + ", "@ + "?"@ + ")"@);
        },
        SpecToken::AMPERSAND => {
            reveal_strlit("(AMPERSAND, &)"); reveal_strlit("("); reveal_strlit("AMPERSAND"); reveal_strlit(", "); reveal_strlit(")"); reveal_strlit("&");
            assert(token_text(t) =~= "("@ + token_name(t) + ", "@ + "&"@ + ")"@);
        },
        SpecToken::FN => {
            reveal_strlit("(FN, fn)"); reveal_strlit("("); reveal_strlit("FN"); reveal_strlit(", "); reveal_strlit(")"); reveal_strlit("fn");
            assert(token_text(t) =~= "("@ + token_name(t) + ", "@ + "fn"@ + ")"@);
        },
        SpecToken::RETURN => {
            reveal_strlit("(RETURN, return)"); reveal_strlit("("); reveal_strlit("RETURN"); reveal_strlit(", "); reveal_strlit(")"); reveal_strlit("return");
            assert(token_text(t) =~= "("@ + token_name(t) + ", "@ + "return"@ + ")"@);
        },
        SpecToken::VAR => {
            reveal_strlit("(VAR, var)"); reveal_strlit("("); reveal_strlit("VAR"); reveal_strlit(", "); reveal_strlit(")"); reveal_strlit("var");
            assert(token_text(t) =~= "("@ + token_name(t) + ", "@ + "var"@ + ")"@);
        },
        SpecToken::FOR => {
            reveal_strlit("(FOR, for)"); reveal_strlit("("); reveal_strlit("FOR"); reveal_strlit(", "); reveal_strlit(")"); reveal_strlit("for");
            assert(token_text(t) =~= "("@ + token_name(t) + ", "@ + "for"@ + ")"@);
        },
        SpecToken::IF => {
            reveal_strlit("(IF, if)"); reveal_strlit("("); reveal_strlit("IF"); reveal_strlit(", "); reveal_strlit(")"); reveal_strlit("if");
            assert(token_text(t) =~= "("@ + token_name(t) + ", "@ + "if"@ + ")"@);
        },
        SpecToken::ELSE => {
            reveal_strlit("(ELSE, else)"); reveal_strlit("("); reveal_strlit("ELSE"); reveal_strlit(", "); reveal_strlit(")"); reveal_strlit("else");
            assert(token_text(t) =~= "("@ + token_name(t) + ", "@ + "else"@ + ")"@);
        },
        SpecToken::TRUE => {
            reveal_strlit("(TRUE, true)"); reveal_strlit("("); reveal_strlit("TRUE"); reveal_strlit(", "); reveal_strlit(")"); reveal_strlit("true");
            assert(token_text(t) =~= "("@ + token_name(t) + ", "@ + "true"@ + ")"@);
        },
        SpecToken::FALSE => {
            reveal_strlit("(FALSE, false)"); reveal_strlit("("); reveal_strlit("FALSE"); reveal_strlit(", "); reveal_strlit(")"); reveal_strlit("false");
            assert(token_text(t) =~= "("@ + token_name(t) + ", "@ + "false"@ + ")"@);
        },
        SpecToken::EOF => {
            reveal_strlit("(EOF, )"); reveal_strlit("("); reveal_strlit("EOF"); reveal_strlit(", "); reveal_strlit(")");
            assert(token_text(t) =~= "("@ + token_name(t) + ", "@ + Seq::<char>::empty() + ")"@);
        },
    }
}

/// The tokens of `input`, ending with `EOF`.
pub fn lex(input: String) -> (tokens: Vec<Token>)
    requires
        lex_spec(input@) is Some,
    ensures
        tokens_view(tokens@) == lex_spec(input@)->0,
{
    match try_lex(input) {
        Some(tokens) => tokens,
        None => Vec::new(),
    }
}

} // verus!
