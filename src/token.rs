//! Tokens: the closed set of lexical categories and their textual rendering.
use vstd::prelude::*;

use crate::text::{int_text, push_char, push_int, push_str};

verus! {

/// One lexical unit of source text.
#[allow(non_camel_case_types)]
#[derive(Debug, PartialEq, Eq, Hash, Clone)]
pub enum Token {
    /// A character that starts no token, or a number too large for `i64`.
    ILLEGAL(char),
    /// End of input.
    EOF,
    IDENT(String),
    INT(i64),
    ASSIGN,
    PLUS,
    MINUS,
    ASTERISK,
    SLASH,
    BANG,
    LT,
    GT,
    EQ,
    NOTEQ,
    COMMA,
    SEMICOLON,
    LPAREN,
    RPAREN,
    LBRACE,
    RBRACE,
    FUNCTION,
    LET,
    IF,
    ELSE,
    RETURN,
    TRUE,
    FALSE,
}

/// The mathematical value of a token: names are character sequences.
pub enum TokenView {
    Illegal(char),
    Eof,
    Ident(Seq<char>),
    Int(i64),
    Assign,
    Plus,
    Minus,
    Asterisk,
    Slash,
    Bang,
    Lt,
    Gt,
    Eq,
    NotEq,
    Comma,
    Semicolon,
    LParen,
    RParen,
    LBrace,
    RBrace,
    Function,
    Let,
    If,
    Else,
    Return,
    True,
    False,
}

impl View for Token {
    type V = TokenView;

    open spec fn view(&self) -> TokenView {
        match self {
            Token::ILLEGAL(c) => TokenView::Illegal(*c),
            Token::EOF => TokenView::Eof,
            Token::IDENT(name) => TokenView::Ident(name@),
            Token::INT(v) => TokenView::Int(*v),
            Token::ASSIGN => TokenView::Assign,
            Token::PLUS => TokenView::Plus,
            Token::MINUS => TokenView::Minus,
            Token::ASTERISK => TokenView::Asterisk,
            Token::SLASH => TokenView::Slash,
            Token::BANG => TokenView::Bang,
            Token::LT => TokenView::Lt,
            Token::GT => TokenView::Gt,
            Token::EQ => TokenView::Eq,
            Token::NOTEQ => TokenView::NotEq,
            Token::COMMA => TokenView::Comma,
            Token::SEMICOLON => TokenView::Semicolon,
            Token::LPAREN => TokenView::LParen,
            Token::RPAREN => TokenView::RParen,
            Token::LBRACE => TokenView::LBrace,
            Token::RBRACE => TokenView::RBrace,
            Token::FUNCTION => TokenView::Function,
            Token::LET => TokenView::Let,
            Token::IF => TokenView::If,
            Token::ELSE => TokenView::Else,
            Token::RETURN => TokenView::Return,
            Token::TRUE => TokenView::True,
            Token::FALSE => TokenView::False,
        }
    }
}

/// How a token is written in diagnostics and in rendered expressions:
/// operators and delimiters as in source, names as themselves, integers as
/// `INT(n)`, and keywords other than `fn` by their upper-case name.
pub open spec fn token_text(t: TokenView) -> Seq<char> {
    match t {
        TokenView::Illegal(c) => seq!['I', 'L', 'L', 'E', 'G', 'A', 'L', '('] + seq![c] + seq![')'],
        TokenView::Eof => seq!['E', 'O', 'F'],
        TokenView::Ident(name) => name,
        TokenView::Int(v) => seq!['I', 'N', 'T', '('] + int_text(v as int) + seq![')'],
        TokenView::Assign => seq!['='],
        TokenView::Plus => seq!['+'],
        TokenView::Minus => seq!['-'],
        TokenView::Asterisk => seq!['*'],
        TokenView::Slash => seq!['/'],
        TokenView::Bang => seq!['!'],
        TokenView::Lt => seq!['<'],
        TokenView::Gt => seq!['>'],
        TokenView::Eq => seq!['=', '='],
        TokenView::NotEq => seq!['!', '='],
        TokenView::Comma => seq![','],
        TokenView::Semicolon => seq![';'],
        TokenView::LParen => seq!['('],
        TokenView::RParen => seq![')'],
        TokenView::LBrace => seq!['{'],
        TokenView::RBrace => seq!['}'],
        TokenView::Function => seq!['f', 'n'],
        TokenView::Let => seq!['L', 'E', 'T'],
        TokenView::If => seq!['I', 'F'],
        TokenView::Else => seq!['E', 'L', 'S', 'E'],
        TokenView::Return => seq!['R', 'E', 'T', 'U', 'R', 'N'],
        TokenView::True => seq!['T', 'R', 'U', 'E'],
        TokenView::False => seq!['F', 'A', 'L', 'S', 'E'],
    }
}

/// Whether `t` matches the expected token `expected`: any identifier
/// matches an identifier and any integer an integer; other tokens match
/// only themselves.
pub open spec fn kind_matches(t: TokenView, expected: TokenView) -> bool {
    match (t, expected) {
        (TokenView::Ident(_), TokenView::Ident(_)) => true,
        (TokenView::Int(_), TokenView::Int(_)) => true,
        _ => t == expected,
    }
}

/// A number for each kind of token.
pub open spec fn kind_code(t: TokenView) -> u8 {
    match t {
        TokenView::Illegal(_) => 0,
        TokenView::Eof => 1,
        TokenView::Ident(_) => 2,
        TokenView::Int(_) => 3,
        TokenView::Assign => 4,
        TokenView::Plus => 5,
        TokenView::Minus => 6,
        TokenView::Asterisk => 7,
        TokenView::Slash => 8,
        TokenView::Bang => 9,
        TokenView::Lt => 10,
        TokenView::Gt => 11,
        TokenView::Eq => 12,
        TokenView::NotEq => 13,
        TokenView::Comma => 14,
        TokenView::Semicolon => 15,
        TokenView::LParen => 16,
        TokenView::RParen => 17,
        TokenView::LBrace => 18,
        TokenView::RBrace => 19,
        TokenView::Function => 20,
        TokenView::Let => 21,
        TokenView::If => 22,
        TokenView::Else => 23,
        TokenView::Return => 24,
        TokenView::True => 25,
        TokenView::False => 26,
    }
}

impl Token {
    fn kind(&self) -> (r: u8)
        ensures
            r == kind_code(self@),
    {
        match self {
            Token::ILLEGAL(_) => 0,
            Token::EOF => 1,
            Token::IDENT(_) => 2,
            Token::INT(_) => 3,
            Token::ASSIGN => 4,
            Token::PLUS => 5,
            Token::MINUS => 6,
            Token::ASTERISK => 7,
            Token::SLASH => 8,
            Token::BANG => 9,
            Token::LT => 10,
            Token::GT => 11,
            Token::EQ => 12,
            Token::NOTEQ => 13,
            Token::COMMA => 14,
            Token::SEMICOLON => 15,
            Token::LPAREN => 16,
            Token::RPAREN => 17,
            Token::LBRACE => 18,
            Token::RBRACE => 19,
            Token::FUNCTION => 20,
            Token::LET => 21,
            Token::IF => 22,
            Token::ELSE => 23,
            Token::RETURN => 24,
            Token::TRUE => 25,
            Token::FALSE => 26,
        }
    }

    /// Whether this token matches `expected` (see `kind_matches`).
    pub fn matches_kind(&self, expected: &Token) -> (r: bool)
        ensures
            r == kind_matches(self@, expected@),
    {
        match (self, expected) {
            (Token::ILLEGAL(a), Token::ILLEGAL(b)) => *a == *b,
            (Token::INT(_), Token::INT(_)) => true,
            (Token::IDENT(_), Token::IDENT(_)) => true,
            (Token::INT(_), _) => false,
            (Token::IDENT(_), _) => false,
            (Token::ILLEGAL(_), _) => false,
            _ => self.kind() == expected.kind(),
        }
    }

    /// A copy of this token.
    pub fn duplicate(&self) -> (r: Token)
        ensures
            r@ == self@,
    {
        match self {
            Token::ILLEGAL(c) => Token::ILLEGAL(*c),
            Token::EOF => Token::EOF,
            Token::IDENT(name) => Token::IDENT(name.clone()),
            Token::INT(v) => Token::INT(*v),
            Token::ASSIGN => Token::ASSIGN,
            Token::PLUS => Token::PLUS,
            Token::MINUS => Token::MINUS,
            Token::ASTERISK => Token::ASTERISK,
            Token::SLASH => Token::SLASH,
            Token::BANG => Token::BANG,
            Token::LT => Token::LT,
            Token::GT => Token::GT,
            Token::EQ => Token::EQ,
            Token::NOTEQ => Token::NOTEQ,
            Token::COMMA => Token::COMMA,
            Token::SEMICOLON => Token::SEMICOLON,
            Token::LPAREN => Token::LPAREN,
            Token::RPAREN => Token::RPAREN,
            Token::LBRACE => Token::LBRACE,
            Token::RBRACE => Token::RBRACE,
            Token::FUNCTION => Token::FUNCTION,
            Token::LET => Token::LET,
            Token::IF => Token::IF,
            Token::ELSE => Token::ELSE,
            Token::RETURN => Token::RETURN,
            Token::TRUE => Token::TRUE,
            Token::FALSE => Token::FALSE,
        }
    }

    /// Appends the rendering of this token to `s`.
    pub fn write_to(&self, s: &mut String)
        ensures
            final(s)@ == old(s)@ + token_text(self@),
    {
        match self {
            Token::ILLEGAL(c) => {
                push_str(s, "ILLEGAL(");
                push_char(s, *c);
                push_char(s, ')');
                proof {
                    reveal_strlit("ILLEGAL(");
                    assert(s@ =~= old(s)@ + token_text(self@));
                }
            },
            Token::EOF => {
                push_str(s, "EOF");
                proof {
                    reveal_strlit("EOF");
                }
            },
            Token::IDENT(name) => {
                push_str(s, name.as_str());
            },
            Token::INT(v) => {
                push_str(s, "INT(");
                push_int(s, *v);
                push_char(s, ')');
                proof {
                    reveal_strlit("INT(");
                    assert(s@ =~= old(s)@ + token_text(self@));
                }
            },
            Token::ASSIGN => push_char(s, '='),
            Token::PLUS => push_char(s, '+'),
            Token::MINUS => push_char(s, '-'),
            Token::ASTERISK => push_char(s, '*'),
            Token::SLASH => push_char(s, '/'),
            Token::BANG => push_char(s, '!'),
            Token::LT => push_char(s, '<'),
            Token::GT => push_char(s, '>'),
            Token::EQ => {
                push_str(s, "==");
                proof {
                    reveal_strlit("==");
                }
            },
            Token::NOTEQ => {
                push_str(s, "!=");
                proof {
                    reveal_strlit("!=");
                }
            },
            Token::COMMA => push_char(s, ','),
            Token::SEMICOLON => push_char(s, ';'),
            Token::LPAREN => push_char(s, '('),
            Token::RPAREN => push_char(s, ')'),
            Token::LBRACE => push_char(s, '{'),
            Token::RBRACE => push_char(s, '}'),
            Token::FUNCTION => {
                push_str(s, "fn");
                proof {
                    reveal_strlit("fn");
                }
            },
            Token::LET => {
                push_str(s, "LET");
                proof {
                    reveal_strlit("LET");
                }
            },
            Token::IF => {
                push_str(s, "IF");
                proof {
                    reveal_strlit("IF");
                }
            },
            Token::ELSE => {
                push_str(s, "ELSE");
                proof {
                    reveal_strlit("ELSE");
                }
            },
            Token::RETURN => {
                push_str(s, "RETURN");
                proof {
                    reveal_strlit("RETURN");
                }
            },
            Token::TRUE => {
                push_str(s, "TRUE");
                proof {
                    reveal_strlit("TRUE");
                }
            },
            Token::FALSE => {
                push_str(s, "FALSE");
                proof {
                    reveal_strlit("FALSE");
                }
            },
        }
    }

    /// The rendering of this token.
    pub fn to_string(&self) -> (r: String)
        ensures
            r@ == token_text(self@),
    {
        let mut s = String::new();
        self.write_to(&mut s);
        proof {
            assert(s@ =~= token_text(self@));
        }
        s
    }
}

} // verus!
