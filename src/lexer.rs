//! The lexer: pulls one token at a time from source text.
use vstd::prelude::*;

use crate::text::push_char;
use crate::token::{Token, TokenView};

verus! {

/// `char::is_alphabetic`: whether a character has the Unicode `Alphabetic`
/// property.
pub uninterp spec fn is_alphabetic(c: char) -> bool;

/// The characters that `char::is_ascii_whitespace` accepts.
pub open spec fn is_whitespace(c: char) -> bool {
    c == ' ' || c == '\t' || c == '\n' || c == '\x0C' || c == '\r'
}

/// An ASCII decimal digit.
pub open spec fn is_digit(c: char) -> bool {
    '0' <= c && c <= '9'
}

/// The first index at or after `p` that holds no whitespace.
pub open spec fn skip_whitespace(s: Seq<char>, p: int) -> int
    decreases s.len() - p,
{
    if 0 <= p < s.len() && is_whitespace(s[p]) {
        skip_whitespace(s, p + 1)
    } else {
        p
    }
}

/// The end of the run of alphabetic characters that starts at `p`.
pub open spec fn letters_end(s: Seq<char>, p: int) -> int
    decreases s.len() - p,
{
    if 0 <= p < s.len() && is_alphabetic(s[p]) {
        letters_end(s, p + 1)
    } else {
        p
    }
}

/// The end of the run of digits that starts at `p`.
pub open spec fn digits_end(s: Seq<char>, p: int) -> int
    decreases s.len() - p,
{
    if 0 <= p < s.len() && is_digit(s[p]) {
        digits_end(s, p + 1)
    } else {
        p
    }
}

/// The base-10 value of a run of digits.
pub open spec fn digits_value(d: Seq<char>) -> nat
    decreases d.len(),
{
    if d.len() == 0 {
        0
    } else {
        digits_value(d.drop_last()) * 10 + (d.last() as nat - '0' as nat) as nat
    }
}

/// The keyword spelled by `w`, if any.
pub open spec fn keyword(w: Seq<char>) -> Option<TokenView> {
    if w == seq!['f', 'n'] {
        Some(TokenView::Function)
    } else if w == seq!['l', 'e', 't'] {
        Some(TokenView::Let)
    } else if w == seq!['i', 'f'] {
        Some(TokenView::If)
    } else if w == seq!['e', 'l', 's', 'e'] {
        Some(TokenView::Else)
    } else if w == seq!['r', 'e', 't', 'u', 'r', 'n'] {
        Some(TokenView::Return)
    } else if w == seq!['t', 'r', 'u', 'e'] {
        Some(TokenView::True)
    } else if w == seq!['f', 'a', 'l', 's', 'e'] {
        Some(TokenView::False)
    } else {
        None
    }
}

/// The token for a word: a keyword, or else an identifier.
pub open spec fn word_token(w: Seq<char>) -> TokenView {
    match keyword(w) {
        Some(k) => k,
        None => TokenView::Ident(w),
    }
}

/// The token for a non-empty run of digits: its value, or an illegal token
/// holding the first digit when the value does not fit in `i64`.
pub open spec fn number_token(d: Seq<char>) -> TokenView {
    if digits_value(d) <= i64::MAX {
        TokenView::Int(digits_value(d) as i64)
    } else {
        TokenView::Illegal(d[0])
    }
}

/// The token of a character that stands alone.
pub open spec fn single_char_token(c: char) -> Option<TokenView> {
    if c == ',' {
        Some(TokenView::Comma)
    } else if c == ';' {
        Some(TokenView::Semicolon)
    } else if c == '+' {
        Some(TokenView::Plus)
    } else if c == '-' {
        Some(TokenView::Minus)
    } else if c == '*' {
        Some(TokenView::Asterisk)
    } else if c == '/' {
        Some(TokenView::Slash)
    } else if c == '<' {
        Some(TokenView::Lt)
    } else if c == '>' {
        Some(TokenView::Gt)
    } else if c == '(' {
        Some(TokenView::LParen)
    } else if c == ')' {
        Some(TokenView::RParen)
    } else if c == '{' {
        Some(TokenView::LBrace)
    } else if c == '}' {
        Some(TokenView::RBrace)
    } else {
        None
    }
}

/// The token that starts at or after `p` (whitespace skipped), and the
/// index just past it. At the end of input this is `Eof`.
pub open spec fn scan(s: Seq<char>, p: int) -> (TokenView, int) {
    let j = skip_whitespace(s, p);
    if j >= s.len() {
        (TokenView::Eof, j)
    } else {
        let c = s[j];
        let two = j + 1 < s.len() && s[j + 1] == '=';
        if c == '=' {
            if two { (TokenView::Eq, j + 2) } else { (TokenView::Assign, j + 1) }
        } else if c == '!' {
            if two { (TokenView::NotEq, j + 2) } else { (TokenView::Bang, j + 1) }
        } else if single_char_token(c) is Some {
            (single_char_token(c)->0, j + 1)
        } else if is_alphabetic(c) {
            let k = letters_end(s, j);
            (word_token(s.subrange(j, k)), k)
        } else if is_digit(c) {
            let k = digits_end(s, j);
            (number_token(s.subrange(j, k)), k)
        } else {
            (TokenView::Illegal(c), j + 1)
        }
    }
}

/// The tokens of `s` from index `p` on, up to the end of input (the final
/// `Eof` not included).
pub open spec fn remaining(s: Seq<char>, p: int) -> Seq<TokenView>
    decreases s.len() - p,
{
    let step = scan(s, p);
    if p < 0 || p >= s.len() || step.0 is Eof || step.1 <= p || step.1 > s.len() {
        seq![]
    } else {
        seq![step.0] + remaining(s, step.1)
    }
}

/// All the tokens of a source text, up to the end of input.
pub open spec fn lex_source(s: Seq<char>) -> Seq<TokenView> {
    remaining(s, 0)
}

/// The end of input never stands among the remaining tokens.
proof fn lemma_remaining_no_eof(s: Seq<char>, p: int)
    ensures
        forall|k: int| 0 <= k < remaining(s, p).len() ==> !(#[trigger] remaining(s, p)[k] is Eof),
    decreases s.len() - p,
{
    let step = scan(s, p);
    if !(p < 0 || p >= s.len() || step.0 is Eof || step.1 <= p || step.1 > s.len()) {
        lemma_remaining_no_eof(s, step.1);
        assert forall|k: int| 0 < k < remaining(s, p).len() implies remaining(s, p)[k] == remaining(
            s,
            step.1,
        )[k - 1] by {}
    }
}

/// Relies on `str::chars`, collected into a vector: the characters of the
/// string, in order.
#[verifier::external_body]
fn chars_of(s: &str) -> (r: Vec<char>)
    ensures
        r@ == s@,
{
    s.chars().collect()
}

/// Relies on `char::is_alphabetic`, which tells whether a character has the
/// Unicode `Alphabetic` property; its answer is named `is_alphabetic`.
#[verifier::external_body]
fn char_is_alphabetic(c: char) -> (r: bool)
    ensures
        r == is_alphabetic(c),
{
    c.is_alphabetic()
}

/// Splits source text into tokens, one per call of `next_token`.
pub struct Lexer {
    input: Vec<char>,
    position: usize,
}

impl Lexer {
    pub closed spec fn wf(&self) -> bool {
        self.position <= self.input.len()
    }

    /// The tokens that the coming calls of `next_token` return, before the
    /// end of input is reached.
    pub closed spec fn tokens(&self) -> Seq<TokenView> {
        remaining(self.input@, self.position as int)
    }

    /// No remaining token is the end of input.
    pub proof fn lemma_tokens_not_eof(&self)
        ensures
            forall|k: int| 0 <= k < self.tokens().len() ==> !(#[trigger] self.tokens()[k] is Eof),
    {
        lemma_remaining_no_eof(self.input@, self.position as int);
    }

    /// A lexer at the start of `input`.
    pub fn new(input: &str) -> (lex: Lexer)
        ensures
            lex.wf(),
            lex.tokens() == lex_source(input@),
    {
        Lexer { input: chars_of(input), position: 0 }
    }

    /// Returns the next token and moves past it; at the end of input returns
    /// `EOF`, on every further call too.
    pub fn next_token(&mut self) -> (tok: Token)
        requires
            old(self).wf(),
        ensures
            final(self).wf(),
            old(self).tokens().len() == 0 ==> tok@ == TokenView::Eof && final(self).tokens().len()
                == 0,
            old(self).tokens().len() > 0 ==> tok@ == old(self).tokens()[0] && final(self).tokens()
                == old(self).tokens().drop_first(),
    {
        let ghost s = self.input@;
        let ghost p = self.position as int;
        self.skip_white_space();
        if self.position >= self.input.len() {
            proof {
                assert(remaining(s, self.position as int) == Seq::<TokenView>::empty());
            }
            return Token::EOF;
        }
        let c = self.input[self.position];
        let tok = if c == '=' {
            if self.peek_char() == '=' {
                self.read_char();
                Token::EQ
            } else {
                Token::ASSIGN
            }
        } else if c == '!' {
            if self.peek_char() == '=' {
                self.read_char();
                Token::NOTEQ
            } else {
                Token::BANG
            }
        } else if c == ',' {
            Token::COMMA
        } else if c == ';' {
            Token::SEMICOLON
        } else if c == '+' {
            Token::PLUS
        } else if c == '-' {
            Token::MINUS
        } else if c == '*' {
            Token::ASTERISK
        } else if c == '/' {
            Token::SLASH
        } else if c == '<' {
            Token::LT
        } else if c == '>' {
            Token::GT
        } else if c == '(' {
            Token::LPAREN
        } else if c == ')' {
            Token::RPAREN
        } else if c == '{' {
            Token::LBRACE
        } else if c == '}' {
            Token::RBRACE
        } else if self.is_letter() {
            let t = self.lookup_ident();
            proof {
                self.lemma_step(s, p, t@);
            }
            return t;
        } else if self.is_digit() {
            let t = self.lookup_number();
            proof {
                self.lemma_step(s, p, t@);
            }
            return t;
        } else {
            Token::ILLEGAL(c)
        };
        self.read_char();
        proof {
            self.lemma_step(s, p, tok@);
        }
        tok
    }

    /// Where `scan` from `p` gives `t` and ends at the current position,
    /// the tokens from `p` are `t` followed by the current tokens.
    proof fn lemma_step(&self, s: Seq<char>, p: int, t: TokenView)
        requires
            self.input@ == s,
            0 <= p < self.position <= s.len(),
            scan(s, p) == (t, self.position as int),
            !(t is Eof),
        ensures
            remaining(s, p) == seq![t] + remaining(s, self.position as int),
    {
    }

    /// Moves one character on, not past the end of input.
    fn read_char(&mut self)
        requires
            old(self).wf(),
        ensures
            final(self).input == old(self).input,
            final(self).position == if old(self).position < old(self).input.len() {
                old(self).position + 1
            } else {
                old(self).position as int
            },
    {
        if self.position < self.input.len() {
            self.position = self.position + 1;
        }
    }

    /// The character after the current one, or `'\0'` past the end.
    fn peek_char(&self) -> (c: char)
        requires
            self.wf(),
        ensures
            self.position + 1 < self.input.len() ==> c == self.input@[self.position + 1],
            self.position + 1 >= self.input.len() ==> c == '\0',
    {
        if self.input.len() - self.position > 1 {
            self.input[self.position + 1]
        } else {
            '\0'
        }
    }

    fn is_letter(&self) -> (r: bool)
        requires
            self.position < self.input.len(),
        ensures
            r == is_alphabetic(self.input@[self.position as int]),
    {
        char_is_alphabetic(self.input[self.position])
    }

    fn is_digit(&self) -> (r: bool)
        requires
            self.position < self.input.len(),
        ensures
            r == is_digit(self.input@[self.position as int]),
    {
        let c = self.input[self.position];
        '0' <= c && c <= '9'
    }

    /// Reads the word at the current position: a keyword or an identifier.
    fn lookup_ident(&mut self) -> (tok: Token)
        requires
            old(self).position < old(self).input.len(),
            is_alphabetic(old(self).input@[old(self).position as int]),
        ensures
            final(self).input == old(self).input,
            final(self).position == letters_end(old(self).input@, old(self).position as int),
            old(self).position < final(self).position <= final(self).input.len(),
            tok@ == word_token(
                old(self).input@.subrange(old(self).position as int, final(self).position as int),
            ),
    {
        let start = self.position;
        let mut word: Vec<char> = Vec::new();
        while self.position < self.input.len() && char_is_alphabetic(self.input[self.position])
            invariant
                self.input == old(self).input,
                start <= self.position <= self.input.len(),
                letters_end(self.input@, start as int) == letters_end(
                    self.input@,
                    self.position as int,
                ),
                word@ == self.input@.subrange(start as int, self.position as int),
            decreases self.input.len() - self.position,
        {
            word.push(self.input[self.position]);
            self.position = self.position + 1;
            proof {
                assert(word@ =~= self.input@.subrange(start as int, self.position as int));
            }
        }
        match lookup_keyword(&word) {
            Some(k) => k,
            None => {
                let mut name = String::new();
                let mut i: usize = 0;
                while i < word.len()
                    invariant
                        i <= word.len(),
                        name@ == word@.subrange(0, i as int),
                    decreases word.len() - i,
                {
                    push_char(&mut name, word[i]);
                    i = i + 1;
                    proof {
                        assert(name@ =~= word@.subrange(0, i as int));
                    }
                }
                proof {
                    assert(name@ =~= word@);
                }
                Token::IDENT(name)
            },
        }
    }

    /// Reads the run of digits at the current position as an integer.
    fn lookup_number(&mut self) -> (tok: Token)
        requires
            old(self).position < old(self).input.len(),
            is_digit(old(self).input@[old(self).position as int]),
        ensures
            final(self).input == old(self).input,
            final(self).position == digits_end(old(self).input@, old(self).position as int),
            old(self).position < final(self).position <= final(self).input.len(),
            tok@ == number_token(
                old(self).input@.subrange(old(self).position as int, final(self).position as int),
            ),
    {
        let start = self.position;
        let mut value: i64 = 0;
        let mut fits = true;
        while self.position < self.input.len() && '0' <= self.input[self.position]
            && self.input[self.position] <= '9'
            invariant
                self.input == old(self).input,
                start <= self.position <= self.input.len(),
                digits_end(self.input@, start as int) == digits_end(
                    self.input@,
                    self.position as int,
                ),
                value >= 0,
                fits ==> value == digits_value(
                    self.input@.subrange(start as int, self.position as int),
                ),
                !fits ==> digits_value(self.input@.subrange(start as int, self.position as int))
                    > i64::MAX,
            decreases self.input.len() - self.position,
        {
            let ghost before = self.input@.subrange(start as int, self.position as int);
            let c = self.input[self.position];
            let d: i64 = (c as u32 - '0' as u32) as i64;
            if fits {
                let next: i128 = (value as i128) * 10 + (d as i128);
                if next > i64::MAX as i128 {
                    fits = false;
                } else {
                    value = next as i64;
                }
            }
            self.position = self.position + 1;
            proof {
                let after = self.input@.subrange(start as int, self.position as int);
                assert(after.drop_last() =~= before);
                assert(after.last() == c);
            }
        }
        proof {
            assert(self.input@.subrange(start as int, self.position as int)[0] == self.input@[start as int]);
        }
        if fits {
            Token::INT(value)
        } else {
            Token::ILLEGAL(self.input[start])
        }
    }

    /// Moves past whitespace.
    fn skip_white_space(&mut self)
        requires
            old(self).wf(),
        ensures
            final(self).input == old(self).input,
            final(self).position == skip_whitespace(old(self).input@, old(self).position as int),
            old(self).position <= final(self).position <= final(self).input.len(),
    {
        while self.position < self.input.len() && is_ascii_whitespace(self.input[self.position])
            invariant
                self.input == old(self).input,
                old(self).position <= self.position <= self.input.len(),
                skip_whitespace(self.input@, old(self).position as int) == skip_whitespace(
                    self.input@,
                    self.position as int,
                ),
            decreases self.input.len() - self.position,
        {
            self.position = self.position + 1;
        }
    }
}

fn is_ascii_whitespace(c: char) -> (r: bool)
    ensures
        r == is_whitespace(c),
{
    c == ' ' || c == '\t' || c == '\n' || c == '\x0C' || c == '\r'
}

/// The keyword token spelled by `w`, if any.
fn lookup_keyword(w: &Vec<char>) -> (r: Option<Token>)
    ensures
        r is None ==> keyword(w@) is None && word_token(w@) == TokenView::Ident(w@),
        r is Some ==> keyword(w@) == Some(r->0@) && word_token(w@) == r->0@,
{
    let n = w.len();
    if n == 2 && w[0] == 'f' && w[1] == 'n' {
        assert(w@ =~= seq!['f', 'n']);
        Some(Token::FUNCTION)
    } else if n == 3 && w[0] == 'l' && w[1] == 'e' && w[2] == 't' {
        assert(w@ =~= seq!['l', 'e', 't']);
        Some(Token::LET)
    } else if n == 2 && w[0] == 'i' && w[1] == 'f' {
        assert(w@ =~= seq!['i', 'f']);
        Some(Token::IF)
    } else if n == 4 && w[0] == 'e' && w[1] == 'l' && w[2] == 's' && w[3] == 'e' {
        assert(w@ =~= seq!['e', 'l', 's', 'e']);
        Some(Token::ELSE)
    } else if n == 6 && w[0] == 'r' && w[1] == 'e' && w[2] == 't' && w[3] == 'u' && w[4] == 'r'
        && w[5] == 'n' {
        assert(w@ =~= seq!['r', 'e', 't', 'u', 'r', 'n']);
        Some(Token::RETURN)
    } else if n == 4 && w[0] == 't' && w[1] == 'r' && w[2] == 'u' && w[3] == 'e' {
        assert(w@ =~= seq!['t', 'r', 'u', 'e']);
        Some(Token::TRUE)
    } else if n == 5 && w[0] == 'f' && w[1] == 'a' && w[2] == 'l' && w[3] == 's' && w[4] == 'e' {
        assert(w@ =~= seq!['f', 'a', 'l', 's', 'e']);
        Some(Token::FALSE)
    } else {
        None
    }
}

} // verus!
