use monkey::lexer::Lexer;
use monkey::token::Token;

#[test]
fn test_next_token() {
    let input = r"
let five = 5;
let ten = 10;

let add = fn(x,y) {
    x + y;
};
let result = add(five, ten);
!-/*5;
5 < 10 > 5;

if (5 < 10) {
    return true;
} else {
    return false;
}

10 == 10;
10 != 9;
";
    let tests = [
        Token::LET,
        Token::IDENT("five".to_string()),
        Token::ASSIGN,
        Token::INT(5),
        Token::SEMICOLON,
        Token::LET,
        Token::IDENT("ten".to_string()),
        Token::ASSIGN,
        Token::INT(10),
        Token::SEMICOLON,
        Token::LET,
        Token::IDENT("add".to_string()),
        Token::ASSIGN,
        Token::FUNCTION,
        Token::LPAREN,
        Token::IDENT("x".to_string()),
        Token::COMMA,
        Token::IDENT("y".to_string()),
        Token::RPAREN,
        Token::LBRACE,
        Token::IDENT("x".to_string()),
        Token::PLUS,
        Token::IDENT("y".to_string()),
        Token::SEMICOLON,
        Token::RBRACE,
        Token::SEMICOLON,
        Token::LET,
        Token::IDENT("result".to_string()),
        Token::ASSIGN,
        Token::IDENT("add".to_string()),
        Token::LPAREN,
        Token::IDENT("five".to_string()),
        Token::COMMA,
        Token::IDENT("ten".to_string()),
        Token::RPAREN,
        Token::SEMICOLON,
        Token::BANG,
        Token::MINUS,
        Token::SLASH,
        Token::ASTERISK,
        Token::INT(5),
        Token::SEMICOLON,
        Token::INT(5),
        Token::LT,
        Token::INT(10),
        Token::GT,
        Token::INT(5),
        Token::SEMICOLON,
        Token::IF,
        Token::LPAREN,
        Token::INT(5),
        Token::LT,
        Token::INT(10),
        Token::RPAREN,
        Token::LBRACE,
        Token::RETURN,
        Token::TRUE,
        Token::SEMICOLON,
        Token::RBRACE,
        Token::ELSE,
        Token::LBRACE,
        Token::RETURN,
        Token::FALSE,
        Token::SEMICOLON,
        Token::RBRACE,
        Token::INT(10),
        Token::EQ,
        Token::INT(10),
        Token::SEMICOLON,
        Token::INT(10),
        Token::NOTEQ,
        Token::INT(9),
        Token::SEMICOLON,
        Token::EOF,
    ];
    let mut lex = Lexer::new(input);
    for test in tests.iter() {
        let tok = lex.next_token();
        assert_eq!(tok, *test);
    }
}

fn lex_all(input: &str) -> Vec<Token> {
    let mut lex = Lexer::new(input);
    let mut out = Vec::new();
    loop {
        let tok = lex.next_token();
        let done = tok == Token::EOF;
        out.push(tok);
        if done {
            return out;
        }
    }
}

#[test]
fn lexes_a_let_binding_exactly() {
    assert_eq!(
        lex_all("let five = 5;"),
        vec![
            Token::LET,
            Token::IDENT("five".to_string()),
            Token::ASSIGN,
            Token::INT(5),
            Token::SEMICOLON,
            Token::EOF,
        ]
    );
}

#[test]
fn end_of_input_repeats() {
    let mut lex = Lexer::new("x");
    assert_eq!(lex.next_token(), Token::IDENT("x".to_string()));
    for _ in 0..5 {
        assert_eq!(lex.next_token(), Token::EOF);
    }
}

#[test]
fn empty_and_blank_input_is_end_of_input() {
    assert_eq!(lex_all(""), vec![Token::EOF]);
    assert_eq!(lex_all(" \t\r\n "), vec![Token::EOF]);
}

#[test]
fn operator_at_end_of_input_does_not_read_past_it() {
    assert_eq!(lex_all("x ="), vec![Token::IDENT("x".to_string()), Token::ASSIGN, Token::EOF]);
    assert_eq!(lex_all("!"), vec![Token::BANG, Token::EOF]);
    assert_eq!(lex_all("=="), vec![Token::EQ, Token::EOF]);
    assert_eq!(lex_all("!="), vec![Token::NOTEQ, Token::EOF]);
}

#[test]
fn overflowing_integer_is_illegal() {
    assert_eq!(lex_all("9223372036854775807"), vec![Token::INT(i64::MAX), Token::EOF]);
    assert_eq!(
        lex_all("9223372036854775808;"),
        vec![Token::ILLEGAL('9'), Token::SEMICOLON, Token::EOF]
    );
}

#[test]
fn unknown_character_is_illegal() {
    assert_eq!(
        lex_all("a @ b"),
        vec![
            Token::IDENT("a".to_string()),
            Token::ILLEGAL('@'),
            Token::IDENT("b".to_string()),
            Token::EOF,
        ]
    );
}

#[test]
fn words_run_over_alphabetic_characters() {
    assert_eq!(
        lex_all("caf\u{e9} fnx iff x1"),
        vec![
            Token::IDENT("caf\u{e9}".to_string()),
            Token::IDENT("fnx".to_string()),
            Token::IDENT("iff".to_string()),
            Token::IDENT("x".to_string()),
            Token::INT(1),
            Token::EOF,
        ]
    );
}

#[test]
fn keywords_are_recognized() {
    assert_eq!(
        lex_all("fn let if else return true false"),
        vec![
            Token::FUNCTION,
            Token::LET,
            Token::IF,
            Token::ELSE,
            Token::RETURN,
            Token::TRUE,
            Token::FALSE,
            Token::EOF,
        ]
    );
}

#[test]
fn token_rendering() {
    assert_eq!(Token::INT(42).to_string(), "INT(42)");
    assert_eq!(Token::INT(-7).to_string(), "INT(-7)");
    assert_eq!(Token::IDENT("abc".to_string()).to_string(), "abc");
    assert_eq!(Token::NOTEQ.to_string(), "!=");
    assert_eq!(Token::LBRACE.to_string(), "{");
    assert_eq!(Token::FUNCTION.to_string(), "fn");
    assert_eq!(Token::LET.to_string(), "LET");
    assert_eq!(Token::EOF.to_string(), "EOF");
    assert_eq!(Token::ILLEGAL('@').to_string(), "ILLEGAL(@)");
}

#[test]
fn token_kind_matching() {
    assert!(Token::IDENT("a".to_string()).matches_kind(&Token::IDENT("b".to_string())));
    assert!(Token::INT(1).matches_kind(&Token::INT(2)));
    assert!(Token::SEMICOLON.matches_kind(&Token::SEMICOLON));
    assert!(!Token::SEMICOLON.matches_kind(&Token::COMMA));
    assert!(!Token::ILLEGAL('a').matches_kind(&Token::ILLEGAL('b')));
    assert_eq!(Token::IDENT("q".to_string()).duplicate(), Token::IDENT("q".to_string()));
}
