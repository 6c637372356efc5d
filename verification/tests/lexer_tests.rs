use mossc::lexer::{lex, try_lex, Token};

fn ident(s: &str) -> Token {
    Token::IDENTIFIER(s.to_string())
}

#[test]
fn lexes_a_variable_declaration() {
    let tokens = lex("var x u64 = 42;".to_string());
    assert_eq!(
        tokens,
        vec![
            Token::VAR,
            ident("x"),
            ident("u64"),
            Token::ASSIGN,
            Token::NUMBER(42),
            Token::SEMICOLON,
            Token::EOF,
        ]
    );
}

#[test]
fn lexes_two_character_operators() {
    let tokens = lex("<= >= != == < > ! =".to_string());
    assert_eq!(
        tokens,
        vec![
            Token::LEQ,
            Token::GEQ,
            Token::NEQ,
            Token::EQ,
            Token::LT,
            Token::GT,
            Token::BANG,
            Token::ASSIGN,
            Token::EOF,
        ]
    );
}

#[test]
fn lexes_operators_without_spaces() {
    let tokens = lex("a<=b==c!d".to_string());
    assert_eq!(
        tokens,
        vec![ident("a"), Token::LEQ, ident("b"), Token::EQ, ident("c"), Token::BANG, ident("d"), Token::EOF]
    );
}

#[test]
fn lexes_every_punctuator() {
    let tokens = lex("()[]{}+-/*=<>?&!~:;".to_string());
    assert_eq!(
        tokens,
        vec![
            Token::LPAREN,
            Token::RPAREN,
            Token::LBRACKET,
            Token::RBRACKET,
            Token::LBRACE,
            Token::RBRACE,
            Token::PLUS,
            Token::DASH,
            Token::SLASH,
            Token::ASTERISK,
            Token::ASSIGN,
            Token::LT,
            Token::GT,
            Token::QUESTION,
            Token::AMPERSAND,
            Token::BANG,
            Token::TILDE,
            Token::COLON,
            Token::SEMICOLON,
            Token::EOF,
        ]
    );
}

#[test]
fn lexes_keywords_and_identifiers() {
    let tokens = lex("fn return var for if else true false iffy _x x_1 Abc".to_string());
    assert_eq!(
        tokens,
        vec![
            Token::FN,
            Token::RETURN,
            Token::VAR,
            Token::FOR,
            Token::IF,
            Token::ELSE,
            Token::TRUE,
            Token::FALSE,
            ident("iffy"),
            ident("x"),
            ident("x_1"),
            ident("Abc"),
            Token::EOF,
        ]
    );
}

#[test]
fn a_number_ends_where_its_digits_end() {
    assert_eq!(lex("12abc".to_string()), vec![Token::NUMBER(12), ident("abc"), Token::EOF]);
    assert_eq!(lex("abc12".to_string()), vec![ident("abc12"), Token::EOF]);
    assert_eq!(lex("007".to_string()), vec![Token::NUMBER(7), Token::EOF]);
}

#[test]
fn commas_are_tokens_and_other_characters_are_skipped() {
    assert_eq!(lex("a, b # c".to_string()), vec![ident("a"), Token::COMMA, ident("b"), ident("c"), Token::EOF]);
    assert_eq!(lex(",".to_string()), vec![Token::COMMA, Token::EOF]);
    assert_eq!(lex("é".to_string()), vec![Token::EOF]);
}

#[test]
fn empty_input_gives_only_eof() {
    assert_eq!(lex(String::new()), vec![Token::EOF]);
}

#[test]
fn largest_number_is_lexed() {
    assert_eq!(lex("18446744073709551615".to_string()), vec![Token::NUMBER(u64::MAX), Token::EOF]);
}

#[test]
fn too_large_number_is_refused() {
    assert!(try_lex("18446744073709551616".to_string()).is_none());
    assert!(try_lex("x = 99999999999999999999999;".to_string()).is_none());
    assert!(try_lex("x = 1;".to_string()).is_some());
}

#[test]
fn lexed_tokens_end_with_eof_and_hold_no_unknown() {
    let tokens = lex("fn main() { var a = (b <= 3) ? 1 : 2; } ~ & ^ | %".to_string());
    assert_eq!(tokens.last(), Some(&Token::EOF));
    assert_eq!(tokens.iter().filter(|t| **t == Token::EOF).count(), 1);
    assert!(!tokens.contains(&Token::UNKNOWN));
}

#[test]
fn literal_of_tokens() {
    assert_eq!(ident("abc").get_literal(), "abc");
    assert_eq!(Token::NUMBER(1024).get_literal(), "1024");
    assert_eq!(Token::NUMBER(0).get_literal(), "0");
    assert_eq!(Token::LEQ.get_literal(), "<=");
    assert_eq!(Token::RBRACE.get_literal(), "}");
    assert_eq!(Token::RETURN.get_literal(), "return");
    assert_eq!(Token::EOF.get_literal(), "\0");
    assert_eq!(Token::UNKNOWN.get_literal(), "\0");
}

#[test]
fn literal_of_a_token_lexes_back_to_it() {
    for t in lex("fn x1 ( ) , { } [ ] 17 + - * / = == != <= >= < > ! ~ ? & : ; var for if else true false return".to_string()) {
        if t == Token::EOF {
            continue;
        }
        assert_eq!(lex(t.get_literal()), vec![t.clone(), Token::EOF]);
    }
}

#[test]
fn display_of_tokens() {
    assert_eq!(Token::LPAREN.display(), "(LPAREN, ()");
    assert_eq!(Token::LBRACE.display(), "(LBRACE, {)");
    assert_eq!(Token::RBRACE.display(), "(RBRACE, })");
    assert_eq!(ident("x").display(), "(IDENTIFIER, x)");
    assert_eq!(Token::NUMBER(12).display(), "(NUMBER, 12)");
    assert_eq!(Token::EOF.display(), "(EOF, )");
    assert_eq!(Token::UNKNOWN.display(), "(UNKNOWN, )");
    assert_eq!(Token::NEQ.display(), "(NEQ, !=)");
}

#[test]
fn same_compares_tokens() {
    assert!(ident("a").same(&ident("a")));
    assert!(!ident("a").same(&ident("b")));
    assert!(Token::NUMBER(3).same(&Token::NUMBER(3)));
    assert!(!Token::NUMBER(3).same(&Token::NUMBER(4)));
    assert!(!Token::LT.same(&Token::LEQ));
    assert!(Token::EOF.same(&Token::EOF));
}

#[test]
fn pieces_joined_by_a_space_lex_apart() {
    let a = "x <";
    let b = "= 12";
    let mut joined = lex(a.to_string());
    joined.pop();
    joined.extend(lex(b.to_string()));
    assert_eq!(lex(format!("{} {}", a, b)), joined);
    assert_eq!(lex("x < = 12".to_string()), vec![ident("x"), Token::LT, Token::ASSIGN, Token::NUMBER(12), Token::EOF]);
    assert_eq!(lex("x <= 12".to_string()), vec![ident("x"), Token::LEQ, Token::NUMBER(12), Token::EOF]);
}

#[test]
fn a_separator_acts_like_a_space() {
    assert_eq!(lex("ab#12".to_string()), lex("ab 12".to_string()));
    assert_eq!(lex("<\t=".to_string()), lex("< =".to_string()));
    assert_eq!(lex("ab_12".to_string()), vec![ident("ab_12"), Token::EOF]);
}

#[test]
fn a_token_prints_as_its_kind_and_literal() {
    for t in lex("fn x1 , ( <= 7 return".to_string()) {
        if t == Token::EOF {
            continue;
        }
        let name = t.display();
        let expected_tail = format!(", {})", t.get_literal());
        assert!(name.starts_with('('));
        assert!(name.ends_with(&expected_tail));
    }
}
