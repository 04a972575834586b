//! The parser: recursive descent for statements and precedence climbing
//! (Pratt parsing) for expressions, with two tokens of lookahead and
//! recovery after errors.
use vstd::prelude::*;

use crate::ast::{
    lemma_names_view_push, lemma_stmts_view_push, names_view, stmts_view, ExprView, Expression,
    Statement, StmtView,
};
use crate::grammar::{
    adv, block_from, expression_at, function_at, if_at, infix_loop, lowest, parameters_at,
    parameters_rest, parse_tokens, precedence, prefix_at, program_from, skip_to,
    statement_at, tok, ParseErrorView,
};
use crate::lexer::Lexer;
use crate::text::push_str;
use crate::token::{kind_matches, token_text, Token, TokenView};

verus! {

/// A syntax error, with the tokens that make it up.
#[derive(Debug, PartialEq, Eq, Hash, Clone)]
pub enum ParseError {
    /// `expected` was required as the next token and `found` came instead.
    UnexpectedToken { expected: Token, found: Token },
    /// An identifier was required as the next token and `found` came instead.
    ExpectedIdentifier { found: Token },
    /// No expression can start with `found`.
    NoPrefixRule { found: Token },
}

impl View for ParseError {
    type V = ParseErrorView;

    open spec fn view(&self) -> ParseErrorView {
        match self {
            ParseError::UnexpectedToken { expected, found } => ParseErrorView::Unexpected {
                expected: expected@,
                found: found@,
            },
            ParseError::ExpectedIdentifier { found } => ParseErrorView::ExpectedIdent {
                found: found@,
            },
            ParseError::NoPrefixRule { found } => ParseErrorView::NoPrefix { found: found@ },
        }
    }
}

/// The human-readable text of a diagnostic.
pub open spec fn error_text(e: ParseErrorView) -> Seq<char> {
    match e {
        ParseErrorView::Unexpected { expected, found } => "expected next token to be "@
            + token_text(expected) + ", got "@ + token_text(found) + " instead"@,
        ParseErrorView::ExpectedIdent { found } => "expected next token to be IDENT, got "@
            + token_text(found) + " instead"@,
        ParseErrorView::NoPrefix { found } => "Parse Expression:Unknown token "@ + token_text(
            found,
        ),
    }
}

impl ParseError {
    /// The human-readable text of this error.
    pub fn message(&self) -> (r: String)
        ensures
            r@ == error_text(self@),
    {
        let mut s = String::new();
        match self {
            ParseError::UnexpectedToken { expected, found } => {
                push_str(&mut s, "expected next token to be ");
                expected.write_to(&mut s);
                push_str(&mut s, ", got ");
                found.write_to(&mut s);
                push_str(&mut s, " instead");
            },
            ParseError::ExpectedIdentifier { found } => {
                push_str(&mut s, "expected next token to be IDENT, got ");
                found.write_to(&mut s);
                push_str(&mut s, " instead");
            },
            ParseError::NoPrefixRule { found } => {
                push_str(&mut s, "Parse Expression:Unknown token ");
                found.write_to(&mut s);
            },
        }
        proof {
            assert(s@ =~= error_text(self@));
        }
        s
    }
}

pub open spec fn errors_view(v: Seq<ParseError>) -> Seq<ParseErrorView> {
    v.map_values(|e: ParseError| e@)
}

pub open spec fn expr_result(r: Result<Expression, ParseError>) -> Result<ExprView, ParseErrorView> {
    match r {
        Ok(e) => Ok(e@),
        Err(e) => Err(e@),
    }
}

pub open spec fn stmt_result(r: Result<Statement, ParseError>) -> Result<StmtView, ParseErrorView> {
    match r {
        Ok(s) => Ok(s@),
        Err(e) => Err(e@),
    }
}

/// Binding power of operators, lowest first.
#[derive(Debug, PartialEq, Eq, Hash, Clone, Copy)]
enum Precedences {
    Lowest,
    Equals,
    LessGreater,
    Sum,
    Product,
    Prefix,
}

impl Precedences {
    spec fn level(self) -> nat {
        match self {
            Precedences::Lowest => 0,
            Precedences::Equals => 1,
            Precedences::LessGreater => 2,
            Precedences::Sum => 3,
            Precedences::Product => 4,
            Precedences::Prefix => 5,
        }
    }

    fn rank(self) -> (r: u8)
        ensures
            r == self.level(),
    {
        match self {
            Precedences::Lowest => 0,
            Precedences::Equals => 1,
            Precedences::LessGreater => 2,
            Precedences::Sum => 3,
            Precedences::Product => 4,
            Precedences::Prefix => 5,
        }
    }

    /// The binding power of `token` in infix position.
    fn get(token: &Token) -> (p: Precedences)
        ensures
            p.level() == precedence(token@),
    {
        match token {
            Token::EQ | Token::NOTEQ => Precedences::Equals,
            Token::LT | Token::GT => Precedences::LessGreater,
            Token::PLUS | Token::MINUS => Precedences::Sum,
            Token::ASTERISK | Token::SLASH => Precedences::Product,
            _ => Precedences::Lowest,
        }
    }
}

/// Builds statements from the tokens of a lexer.
pub struct Parser {
    lexer: Lexer,
    cur_token: Token,
    peek_token: Token,
    errors: Vec<ParseError>,
    /// Every token the lexer gives, before the end of input.
    tokens: Ghost<Seq<TokenView>>,
    /// The index of the current token in `tokens`.
    index: Ghost<int>,
}

impl Parser {
    /// The tokens this parser reads, up to the end of input.
    pub closed spec fn token_stream(&self) -> Seq<TokenView> {
        self.tokens@
    }

    /// The index of the current token in `token_stream()`: -2 before the
    /// first token is read, and at most its length.
    pub closed spec fn cursor(&self) -> int {
        self.index@
    }

    /// The diagnostics recorded so far, oldest first.
    pub closed spec fn diagnostics(&self) -> Seq<ParseErrorView> {
        errors_view(self.errors@)
    }

    pub closed spec fn wf(&self) -> bool {
        let ts = self.tokens@;
        let i = self.index@;
        &&& self.lexer.wf()
        &&& -2 <= i <= ts.len()
        &&& forall|k: int| 0 <= k < ts.len() ==> !(#[trigger] ts[k] is Eof)
        &&& self.cur_token@ == tok(ts, i)
        &&& self.peek_token@ == tok(ts, i + 1)
        &&& self.lexer.tokens() == ts.subrange(
            if i + 2 < ts.len() {
                i + 2
            } else {
                ts.len() as int
            },
            ts.len() as int,
        )
    }

    /// `after` is this parser moved to index `next`, with `errs` recorded.
    spec fn moved_to(&self, after: &Parser, next: int, errs: Seq<ParseErrorView>) -> bool {
        &&& after.wf()
        &&& after.tokens@ == self.tokens@
        &&& after.index@ == next
        &&& errors_view(after.errors@) == errors_view(self.errors@) + errs
    }

    /// A parser over the tokens of `lex`, before its first token is read.
    pub fn new(lex: Lexer) -> (p: Parser)
        requires
            lex.wf(),
        ensures
            p.wf(),
            p.token_stream() == lex.tokens(),
            p.cursor() == -2,
            p.diagnostics() == Seq::<ParseErrorView>::empty(),
    {
        proof {
            lex.lemma_tokens_not_eof();
        }
        let ghost ts = lex.tokens();
        let p = Parser {
            lexer: lex,
            cur_token: Token::EOF,
            peek_token: Token::EOF,
            errors: Vec::new(),
            tokens: Ghost(ts),
            index: Ghost(-2),
        };
        proof {
            assert(ts.subrange(0, ts.len() as int) =~= ts);
            assert(errors_view(p.errors@) =~= Seq::<ParseErrorView>::empty());
        }
        p
    }

    /// The diagnostics recorded so far.
    pub fn errors(&self) -> (r: &Vec<ParseError>)
        ensures
            errors_view(r@) == self.diagnostics(),
    {
        &self.errors
    }

    /// Moves one token on: the peeked token becomes current and the next one
    /// is read from the lexer.
    fn next_token(&mut self)
        requires
            old(self).wf(),
        ensures
            old(self).moved_to(final(self), adv(old(self).tokens@, old(self).index@), seq![]),
    {
        let ghost ts = self.tokens@;
        let ghost i = self.index@;
        let mut next = self.lexer.next_token();
        std::mem::swap(&mut self.peek_token, &mut next);
        self.cur_token = next;
        self.index = Ghost(adv(ts, i));
        proof {
            let n = ts.len() as int;
            let j = adv(ts, i);
            assert(self.cur_token@ == tok(ts, j));
            if i + 2 >= n {
                assert(ts.subrange(n, n).len() == 0);
                assert(self.peek_token@ == tok(ts, j + 1));
            }
            if i + 2 < n {
                assert(ts.subrange(i + 2, n)[0] == ts[i + 2]);
                assert(ts.subrange(i + 2, n).drop_first() =~= ts.subrange(
                    if i + 3 < n {
                        i + 3
                    } else {
                        n
                    },
                    n,
                ));
            }
            assert(errors_view(self.errors@) =~= errors_view(self.errors@) + seq![]);
            assert(self.lexer.wf());
            assert(self.peek_token@ == tok(ts, j + 1));
            assert(self.lexer.tokens() == ts.subrange(
                if j + 2 < n {
                    j + 2
                } else {
                    n
                },
                n,
            ));
        }
    }

    /// Records a diagnostic.
    fn record(&mut self, e: ParseError)
        requires
            old(self).wf(),
        ensures
            old(self).moved_to(final(self), old(self).index@, seq![e@]),
    {
        self.errors.push(e);
        proof {
            assert(errors_view(self.errors@) =~= errors_view(old(self).errors@) + seq![e@]);
        }
    }

    fn peek_token_is(&self, t: &Token) -> (r: bool)
        ensures
            r == kind_matches(self.peek_token@, t@),
    {
        self.peek_token.matches_kind(t)
    }

    fn cur_token_is(&self, t: &Token) -> (r: bool)
        ensures
            r == kind_matches(self.cur_token@, t@),
    {
        self.cur_token.matches_kind(t)
    }

    /// Moves on if the next token matches `expected`; otherwise stays and
    /// reports what came instead.
    fn expect_peek(&mut self, expected: Token) -> (r: Result<(), ParseError>)
        requires
            old(self).wf(),
        ensures
            kind_matches(old(self).peek_token@, expected@) ==> r is Ok && old(self).moved_to(
                final(self),
                adv(old(self).tokens@, old(self).index@),
                seq![],
            ),
            !kind_matches(old(self).peek_token@, expected@) ==> r is Err && r->Err_0@ == (
            ParseErrorView::Unexpected { expected: expected@, found: old(self).peek_token@ })
                && old(self).moved_to(final(self), old(self).index@, seq![]),
    {
        if self.peek_token_is(&expected) {
            self.next_token();
            Ok(())
        } else {
            proof {
                assert(errors_view(self.errors@) =~= errors_view(self.errors@) + seq![]);
            }
            Err(ParseError::UnexpectedToken { expected, found: self.peek_token.duplicate() })
        }
    }

    /// Moves on if the next token is an identifier and returns its name;
    /// otherwise stays and reports what came instead.
    fn expect_ident(&mut self) -> (r: Result<String, ParseError>)
        requires
            old(self).wf(),
        ensures
            old(self).peek_token@ is Ident ==> r is Ok && r->Ok_0@ == old(
                self,
            ).peek_token@->Ident_0 && old(self).moved_to(
                final(self),
                adv(old(self).tokens@, old(self).index@),
                seq![],
            ),
            !(old(self).peek_token@ is Ident) ==> r is Err && r->Err_0@ == (
            ParseErrorView::ExpectedIdent { found: old(self).peek_token@ }) && old(self).moved_to(
                final(self),
                old(self).index@,
                seq![],
            ),
    {
        let name = match &self.peek_token {
            Token::IDENT(n) => n.clone(),
            _ => {
                proof {
                    assert(errors_view(self.errors@) =~= errors_view(self.errors@) + seq![]);
                }
                return Err(ParseError::ExpectedIdentifier { found: self.peek_token.duplicate() });
            },
        };
        self.next_token();
        Ok(name)
    }
}


proof fn lemma_concat_empty(a: Seq<ParseErrorView>)
    ensures
        a + Seq::<ParseErrorView>::empty() == a,
{
    assert(a + Seq::<ParseErrorView>::empty() =~= a);
}

proof fn lemma_concat_assoc(a: Seq<ParseErrorView>, b: Seq<ParseErrorView>, c: Seq<ParseErrorView>)
    ensures
        a + b + c == a + (b + c),
{
    assert(a + b + c =~= a + (b + c));
}

impl Parser {
    /// Parses the whole program: reads the first two tokens, then parses
    /// statements until the end of input. After a failed statement the
    /// error is recorded and parsing resumes after the next `;`.
    pub fn parse_program(&mut self) -> (program: Vec<Statement>)
        requires
            old(self).wf(),
        ensures
            final(self).wf(),
            final(self).token_stream() == old(self).token_stream(),
            ({
                let ts = old(self).token_stream();
                let r = program_from(ts, adv(ts, adv(ts, old(self).cursor())), seq![]);
                stmts_view(program@) == r.0 && final(self).diagnostics() == old(self).diagnostics()
                    + r.1
            }),
            old(self).cursor() == -2 ==> stmts_view(program@) == parse_tokens(
                old(self).token_stream(),
            ).0 && final(self).diagnostics() == old(self).diagnostics() + parse_tokens(
                old(self).token_stream(),
            ).1,
    {
        let ghost ts = self.tokens@;
        let ghost e0 = errors_view(self.errors@);
        let mut statements: Vec<Statement> = Vec::new();
        self.next_token();
        self.next_token();
        let ghost start = self.index@;
        let ghost target = program_from(ts, start, seq![]);
        proof {
            assert(stmts_view(statements@) =~= Seq::<StmtView>::empty());
            lemma_concat_empty(e0);
        }
        while !self.cur_token_is(&Token::EOF)
            invariant
                self.wf(),
                self.tokens@ == ts,
                ts == old(self).tokens@,
                e0 == errors_view(old(self).errors@),
                start == adv(ts, adv(ts, old(self).index@)),
                target == program_from(ts, start, seq![]),
                0 <= self.index@,
                ({
                    let rest = program_from(ts, self.index@, stmts_view(statements@));
                    rest.0 == target.0 && errors_view(self.errors@) + rest.1 == e0 + target.1
                }),
            decreases ts.len() - self.index@,
        {
            let ghost c = self.index@;
            let ghost acc = stmts_view(statements@);
            let ghost errs = errors_view(self.errors@);
            let ghost r = statement_at(ts, c);
            match self.parse_statement() {
                Ok(st) => {
                    proof {
                        lemma_stmts_view_push(statements@, st);
                    }
                    statements.push(st);
                    self.next_token();
                    proof {
                        lemma_concat_empty(errors_view(self.errors@));
                        lemma_concat_assoc(errs, r.2, program_from(ts, self.index@, stmts_view(statements@)).1);
                    }
                },
                Err(e) => {
                    let ghost r1 = self.index@;
                    while !self.cur_token_is(&Token::SEMICOLON) && !self.cur_token_is(&Token::EOF)
                        invariant
                            self.wf(),
                            self.tokens@ == ts,
                            r1 <= self.index@,
                            errors_view(self.errors@) == errs + r.2,
                            skip_to(ts, r1, TokenView::Semicolon) == skip_to(
                                ts,
                                self.index@,
                                TokenView::Semicolon,
                            ),
                        decreases ts.len() - self.index@,
                    {
                        self.next_token();
                        proof {
                            lemma_concat_empty(errors_view(self.errors@));
                        }
                    }
                    self.record(e);
                    self.next_token();
                    proof {
                        lemma_concat_empty(errors_view(self.errors@));
                        lemma_concat_assoc(errs, r.2, seq![e@]);
                        lemma_concat_assoc(errs, r.2.push(e@), program_from(ts, self.index@, acc).1);
                        assert(r.2 + seq![e@] == r.2.push(e@));
                    }
                },
            }
        }
        proof {
            lemma_concat_empty(errors_view(self.errors@));
        }
        statements
    }

    /// A statement at the current token.
    fn parse_statement(&mut self) -> (r: Result<Statement, ParseError>)
        requires
            old(self).wf(),
            old(self).index@ >= 0,
        ensures
            ({
                let s = statement_at(old(self).tokens@, old(self).index@);
                stmt_result(r) == s.0 && old(self).moved_to(final(self), s.1, s.2)
            }),
            old(self).index@ <= final(self).index@,
        decreases old(self).tokens@.len() - old(self).index@, 8nat,
    {
        match self.cur_token {
            Token::LET => self.parse_let_statement(),
            Token::RETURN => self.parse_return_statement(),
            _ => self.parse_expr_statement(),
        }
    }

    fn parse_let_statement(&mut self) -> (r: Result<Statement, ParseError>)
        requires
            old(self).wf(),
            old(self).index@ >= 0,
            old(self).cur_token@ == TokenView::Let,
        ensures
            ({
                let s = statement_at(old(self).tokens@, old(self).index@);
                stmt_result(r) == s.0 && old(self).moved_to(final(self), s.1, s.2)
            }),
            old(self).index@ <= final(self).index@,
        decreases old(self).tokens@.len() - old(self).index@, 7nat,
    {
        let name = match self.expect_ident() {
            Ok(n) => n,
            Err(e) => return Err(e),
        };
        match self.expect_peek(Token::ASSIGN) {
            Ok(()) => {},
            Err(e) => return Err(e),
        }
        self.next_token();
        let expr = match self.parse_expression(Precedences::Lowest) {
            Ok(e) => e,
            Err(e) => return Err(e),
        };
        match self.expect_peek(Token::SEMICOLON) {
            Ok(()) => {},
            Err(e) => return Err(e),
        }
        Ok(Statement::Let { identifier: name, expr })
    }

    fn parse_return_statement(&mut self) -> (r: Result<Statement, ParseError>)
        requires
            old(self).wf(),
            old(self).index@ >= 0,
            old(self).cur_token@ == TokenView::Return,
        ensures
            ({
                let s = statement_at(old(self).tokens@, old(self).index@);
                stmt_result(r) == s.0 && old(self).moved_to(final(self), s.1, s.2)
            }),
            old(self).index@ <= final(self).index@,
        decreases old(self).tokens@.len() - old(self).index@, 7nat,
    {
        self.next_token();
        let expr = match self.parse_expression(Precedences::Lowest) {
            Ok(e) => e,
            Err(e) => return Err(e),
        };
        if self.peek_token_is(&Token::SEMICOLON) {
            self.next_token();
        }
        Ok(Statement::Return(expr))
    }

    fn parse_expr_statement(&mut self) -> (r: Result<Statement, ParseError>)
        requires
            old(self).wf(),
            old(self).index@ >= 0,
            old(self).cur_token@ != TokenView::Return,
            old(self).cur_token@ != TokenView::Let,
        ensures
            ({
                let s = statement_at(old(self).tokens@, old(self).index@);
                stmt_result(r) == s.0 && old(self).moved_to(final(self), s.1, s.2)
            }),
            old(self).index@ <= final(self).index@,
        decreases old(self).tokens@.len() - old(self).index@, 7nat,
    {
        let expr = match self.parse_expression(Precedences::Lowest) {
            Ok(e) => e,
            Err(e) => return Err(e),
        };
        if self.peek_token_is(&Token::SEMICOLON) {
            self.next_token();
        }
        Ok(Statement::Expr(expr))
    }

    /// An expression at the current token whose infix operators bind
    /// tighter than `precedence`.
    fn parse_expression(&mut self, precedence: Precedences) -> (r: Result<Expression, ParseError>)
        requires
            old(self).wf(),
            old(self).index@ >= 0,
        ensures
            ({
                let s = expression_at(old(self).tokens@, old(self).index@, precedence.level());
                expr_result(r) == s.0 && old(self).moved_to(final(self), s.1, s.2)
            }),
            old(self).index@ <= final(self).index@,
        decreases old(self).tokens@.len() - old(self).index@, 6nat,
    {
        let ghost ts = self.tokens@;
        let ghost e0 = errors_view(self.errors@);
        let ghost p = precedence.level();
        let ghost target = expression_at(ts, self.index@, p);
        let ghost i = self.index@;
        let mut left = match self.parse_prefix() {
            Ok(e) => e,
            Err(e) => return Err(e),
        };
        proof {
            let pre = prefix_at(ts, i);
            lemma_concat_assoc(e0, pre.2, infix_loop(ts, left@, self.index@, p).2);
        }
        while self.peek_binds_tighter(precedence)
            invariant
                self.wf(),
                self.tokens@ == ts,
                ts == old(self).tokens@,
                i == old(self).index@,
                p == precedence.level(),
                e0 == errors_view(old(self).errors@),
                target == expression_at(ts, i, p),
                i <= self.index@,
                ({
                    let rest = infix_loop(ts, left@, self.index@, p);
                    target.0 == rest.0 && target.1 == rest.1 && errors_view(self.errors@) + rest.2
                        == e0 + target.2
                }),
            decreases ts.len() - self.index@,
        {
            let ghost errs = errors_view(self.errors@);
            let ghost j = self.index@;
            let ghost op = tok(ts, j + 1);
            let ghost r = expression_at(ts, j + 2, crate::grammar::precedence(op));
            let ghost old_left = left@;
            assert(j + 1 < ts.len());
            assert(op != TokenView::Semicolon);
            assert(p < crate::grammar::precedence(op));
            self.next_token();
            match self.parse_infix_expression(left) {
                Ok(e) => {
                    left = e;
                    proof {
                        let right = r.0->Ok_0;
                        assert(left@ == ExprView::Infix {
                            operator: op,
                            left: Box::new(old_left),
                            right: Box::new(right),
                        });
                        let rest = infix_loop(ts, left@, self.index@, p);
                        assert(infix_loop(ts, old_left, j, p) == (rest.0, rest.1, r.2 + rest.2));
                        lemma_concat_assoc(errs, r.2, rest.2);
                    }
                },
                Err(e) => {
                    proof {
                        assert(infix_loop(ts, old_left, j, p) == r);
                    }
                    return Err(e);
                },
            }
        }
        proof {
            lemma_concat_empty(errors_view(self.errors@));
        }
        Ok(left)
    }

    /// Whether the next token is an infix operator that binds tighter than
    /// `precedence` (a `;` ends the expression).
    fn peek_binds_tighter(&self, precedence: Precedences) -> (r: bool)
        ensures
            r == (self.peek_token@ != TokenView::Semicolon && precedence.level()
                < crate::grammar::precedence(self.peek_token@)),
    {
        !self.peek_token_is(&Token::SEMICOLON) && precedence.rank() < Precedences::get(
            &self.peek_token,
        ).rank()
    }

    /// The term that starts an expression at the current token.
    fn parse_prefix(&mut self) -> (r: Result<Expression, ParseError>)
        requires
            old(self).wf(),
            old(self).index@ >= 0,
        ensures
            ({
                let s = prefix_at(old(self).tokens@, old(self).index@);
                expr_result(r) == s.0 && old(self).moved_to(final(self), s.1, s.2)
            }),
            old(self).index@ <= final(self).index@,
        decreases old(self).tokens@.len() - old(self).index@, 4nat,
    {
        proof {
            lemma_concat_empty(errors_view(self.errors@));
        }
        match &self.cur_token {
            Token::IDENT(name) => {
                return Ok(Expression::Ident(name.clone()));
            },
            Token::INT(v) => {
                return Ok(Expression::Int(*v));
            },
            _ => {},
        }
        match self.cur_token {
            Token::TRUE => Ok(Expression::Boolean(true)),
            Token::FALSE => Ok(Expression::Boolean(false)),
            Token::LPAREN => self.parse_grouped_expression(),
            Token::BANG | Token::MINUS => self.parse_prefix_expression(),
            Token::IF => self.parse_if_expression(),
            Token::FUNCTION => self.parse_function_expression(),
            _ => Err(ParseError::NoPrefixRule { found: self.cur_token.duplicate() }),
        }
    }

    /// A parenthesized expression whose `(` is the current token.
    fn parse_grouped_expression(&mut self) -> (r: Result<Expression, ParseError>)
        requires
            old(self).wf(),
            old(self).index@ >= 0,
            old(self).cur_token@ == TokenView::LParen,
        ensures
            ({
                let s = prefix_at(old(self).tokens@, old(self).index@);
                expr_result(r) == s.0 && old(self).moved_to(final(self), s.1, s.2)
            }),
            old(self).index@ <= final(self).index@,
        decreases old(self).tokens@.len() - old(self).index@, 3nat,
    {
        self.next_token();
        let e = match self.parse_expression(Precedences::Lowest) {
            Ok(e) => e,
            Err(err) => return Err(err),
        };
        match self.expect_peek(Token::RPAREN) {
            Ok(()) => Ok(Expression::Grouped(Box::new(e))),
            Err(err) => Err(err),
        }
    }

    /// A prefix operation whose operator is the current token.
    fn parse_prefix_expression(&mut self) -> (r: Result<Expression, ParseError>)
        requires
            old(self).wf(),
            old(self).index@ >= 0,
            old(self).cur_token@ == TokenView::Bang || old(self).cur_token@ == TokenView::Minus,
        ensures
            ({
                let s = prefix_at(old(self).tokens@, old(self).index@);
                expr_result(r) == s.0 && old(self).moved_to(final(self), s.1, s.2)
            }),
            old(self).index@ <= final(self).index@,
        decreases old(self).tokens@.len() - old(self).index@, 3nat,
    {
        let operator = self.cur_token.duplicate();
        self.next_token();
        match self.parse_expression(Precedences::Prefix) {
            Ok(e) => Ok(Expression::Prefix { operator, right: Box::new(e) }),
            Err(err) => Err(err),
        }
    }

    /// An infix operation whose operator is the current token and whose
    /// left operand is `left`.
    fn parse_infix_expression(&mut self, left: Expression) -> (r: Result<Expression, ParseError>)
        requires
            old(self).wf(),
            old(self).index@ >= 0,
            precedence(old(self).cur_token@) > 0,
        ensures
            ({
                let ts = old(self).tokens@;
                let j = old(self).index@;
                let s = expression_at(ts, j + 1, precedence(tok(ts, j)));
                &&& expr_result(r) == match s.0 {
                    Ok(right) => Ok(
                        ExprView::Infix {
                            operator: tok(ts, j),
                            left: Box::new(left@),
                            right: Box::new(right),
                        },
                    ),
                    Err(e) => Err(e),
                }
                &&& old(self).moved_to(final(self), s.1, s.2)
            }),
            old(self).index@ + 1 <= final(self).index@,
        decreases old(self).tokens@.len() - old(self).index@, 5nat,
    {
        let precedence = Precedences::get(&self.cur_token);
        let operator = self.cur_token.duplicate();
        self.next_token();
        match self.parse_expression(precedence) {
            Ok(right) => Ok(Expression::Infix { operator, left: Box::new(left), right: Box::new(right) }),
            Err(e) => Err(e),
        }
    }

    /// A conditional whose `if` is the current token.
    fn parse_if_expression(&mut self) -> (r: Result<Expression, ParseError>)
        requires
            old(self).wf(),
            old(self).index@ >= 0,
            old(self).cur_token@ == TokenView::If,
        ensures
            ({
                let s = if_at(old(self).tokens@, old(self).index@);
                expr_result(r) == s.0 && old(self).moved_to(final(self), s.1, s.2)
            }),
            old(self).index@ <= final(self).index@,
        decreases old(self).tokens@.len() - old(self).index@, 3nat,
    {
        let ghost ts = self.tokens@;
        let ghost e0 = errors_view(self.errors@);
        proof {
            lemma_concat_empty(e0);
        }
        match self.expect_peek(Token::LPAREN) {
            Ok(()) => {},
            Err(e) => return Err(e),
        }
        self.next_token();
        let condition = match self.parse_expression(Precedences::Lowest) {
            Ok(e) => e,
            Err(e) => return Err(e),
        };
        match self.expect_peek(Token::RPAREN) {
            Ok(()) => {},
            Err(e) => return Err(e),
        }
        match self.expect_peek(Token::LBRACE) {
            Ok(()) => {},
            Err(e) => return Err(e),
        }
        let consequence = self.parse_block_expression();
        proof {
            let c = expression_at(ts, old(self).index@ + 2, lowest());
            let b = block_from(ts, c.1 + 3, seq![]);
            lemma_concat_assoc(e0, c.2, b.2);
        }
        if self.peek_token_is(&Token::ELSE) {
            self.next_token();
            match self.expect_peek(Token::LBRACE) {
                Ok(()) => {},
                Err(e) => return Err(e),
            }
            let alternative = self.parse_block_expression();
            proof {
                let c = expression_at(ts, old(self).index@ + 2, lowest());
                let b = block_from(ts, c.1 + 3, seq![]);
                let a = block_from(ts, b.1 + 3, seq![]);
                lemma_concat_assoc(e0, c.2, b.2);
                lemma_concat_assoc(e0 + c.2, b.2, a.2);
                lemma_concat_assoc(e0, c.2 + b.2, a.2);
            }
            Ok(
                Expression::If {
                    condition: Box::new(condition),
                    consequence: Box::new(consequence),
                    alternative: Some(Box::new(alternative)),
                },
            )
        } else {
            proof {
                let c = expression_at(ts, old(self).index@ + 2, lowest());
                let b = block_from(ts, c.1 + 3, seq![]);
                lemma_concat_assoc(e0, c.2, b.2);
            }
            Ok(
                Expression::If {
                    condition: Box::new(condition),
                    consequence: Box::new(consequence),
                    alternative: None,
                },
            )
        }
    }

    /// A block whose `{` is the current token: statements up to the closing
    /// `}` or the end of input, where the cursor stops. The first failed
    /// statement is recorded and ends the block at the next `}`.
    fn parse_block_expression(&mut self) -> (r: Expression)
        requires
            old(self).wf(),
            old(self).index@ >= 0,
            old(self).cur_token@ == TokenView::LBrace,
        ensures
            ({
                let b = block_from(old(self).tokens@, old(self).index@ + 1, seq![]);
                r@ == ExprView::Block(b.0) && old(self).moved_to(final(self), b.1, b.2)
            }),
            old(self).index@ + 1 <= final(self).index@,
        decreases old(self).tokens@.len() - old(self).index@, 2nat,
    {
        let ghost ts = self.tokens@;
        let ghost e0 = errors_view(self.errors@);
        let ghost target = block_from(ts, self.index@ + 1, seq![]);
        let ghost b0 = self.index@;
        let mut statements: Vec<Statement> = Vec::new();
        self.next_token();
        proof {
            assert(stmts_view(statements@) =~= Seq::<StmtView>::empty());
            lemma_concat_empty(e0);
        }
        while !self.cur_token_is(&Token::RBRACE) && !self.cur_token_is(&Token::EOF)
            invariant
                self.wf(),
                self.tokens@ == ts,
                ts == old(self).tokens@,
                b0 == old(self).index@,
                e0 == errors_view(old(self).errors@),
                target == block_from(ts, b0 + 1, seq![]),
                b0 + 1 <= self.index@,
                ({
                    let rest = block_from(ts, self.index@, stmts_view(statements@));
                    rest.0 == target.0 && rest.1 == target.1 && errors_view(self.errors@) + rest.2
                        == e0 + target.2
                }),
            decreases ts.len() - self.index@,
        {
            let ghost c = self.index@;
            let ghost acc = stmts_view(statements@);
            let ghost errs = errors_view(self.errors@);
            let ghost r = statement_at(ts, c);
            match self.parse_statement() {
                Ok(st) => {
                    proof {
                        lemma_stmts_view_push(statements@, st);
                    }
                    statements.push(st);
                    self.next_token();
                    proof {
                        lemma_concat_empty(errors_view(self.errors@));
                        lemma_concat_assoc(errs, r.2, block_from(ts, self.index@, stmts_view(statements@)).2);
                    }
                },
                Err(e) => {
                    let ghost r1 = self.index@;
                    while !self.cur_token_is(&Token::RBRACE) && !self.cur_token_is(&Token::EOF)
                        invariant
                            self.wf(),
                            self.tokens@ == ts,
                            r1 <= self.index@,
                            errors_view(self.errors@) == errs + r.2,
                            skip_to(ts, r1, TokenView::RBrace) == skip_to(
                                ts,
                                self.index@,
                                TokenView::RBrace,
                            ),
                        decreases ts.len() - self.index@,
                    {
                        self.next_token();
                        proof {
                            lemma_concat_empty(errors_view(self.errors@));
                        }
                    }
                    self.record(e);
                    proof {
                        lemma_concat_empty(errors_view(self.errors@));
                        lemma_concat_assoc(errs, r.2, seq![e@]);
                        assert(r.2 + seq![e@] == r.2.push(e@));
                    }
                },
            }
        }
        proof {
            lemma_concat_empty(errors_view(self.errors@));
        }
        Expression::Block(statements)
    }

    /// A function literal whose `fn` is the current token.
    fn parse_function_expression(&mut self) -> (r: Result<Expression, ParseError>)
        requires
            old(self).wf(),
            old(self).index@ >= 0,
            old(self).cur_token@ == TokenView::Function,
        ensures
            ({
                let s = function_at(old(self).tokens@, old(self).index@);
                expr_result(r) == s.0 && old(self).moved_to(final(self), s.1, s.2)
            }),
            old(self).index@ <= final(self).index@,
        decreases old(self).tokens@.len() - old(self).index@, 3nat,
    {
        let parameters = match self.parse_parameters() {
            Ok(p) => p,
            Err(e) => return Err(e),
        };
        match self.expect_peek(Token::LBRACE) {
            Ok(()) => {},
            Err(e) => return Err(e),
        }
        let body = self.parse_block_expression();
        Ok(Expression::Function { parameters, body: Box::new(body) })
    }

    /// The parameter list after the current `fn`: `(`, identifiers separated
    /// by commas, and `)`, where the cursor stops.
    fn parse_parameters(&mut self) -> (r: Result<Vec<String>, ParseError>)
        requires
            old(self).wf(),
            old(self).index@ >= 0,
        ensures
            ({
                let ts = old(self).tokens@;
                let i = old(self).index@;
                let p = if tok(ts, i + 1) != TokenView::LParen {
                    (
                        Err(ParseErrorView::Unexpected { expected: TokenView::LParen, found: tok(ts, i + 1) }),
                        i,
                    )
                } else {
                    parameters_at(ts, i + 1)
                };
                &&& match p.0 {
                    Ok(names) => r is Ok && names_view(r->Ok_0@) == names,
                    Err(e) => r is Err && r->Err_0@ == e,
                }
                &&& old(self).moved_to(final(self), p.1, seq![])
            }),
            old(self).index@ <= final(self).index@,
    {
        let ghost ts = self.tokens@;
        match self.expect_peek(Token::LPAREN) {
            Ok(()) => {},
            Err(e) => return Err(e),
        }
        let ghost open_paren = self.index@;
        let ghost target = parameters_at(ts, open_paren);
        let mut parameters: Vec<String> = Vec::new();
        let mut first = true;
        while !self.peek_token_is(&Token::RPAREN)
            invariant
                self.wf(),
                self.tokens@ == ts,
                errors_view(self.errors@) == errors_view(old(self).errors@) + seq![],
                ts == old(self).tokens@,
                open_paren == old(self).index@ + 1,
                tok(ts, old(self).index@ + 1) == TokenView::LParen,
                target == parameters_at(ts, open_paren),
                open_paren <= self.index@,
                old(self).index@ <= self.index@,
                first ==> parameters@.len() == 0 && self.index@ == open_paren,
                target == if first {
                    parameters_at(ts, self.index@)
                } else {
                    parameters_rest(ts, self.index@, names_view(parameters@))
                },
            decreases ts.len() - self.index@,
        {
            if !first {
                match self.expect_peek(Token::COMMA) {
                    Ok(()) => {},
                    Err(e) => return Err(e),
                }
            }
            match self.expect_ident() {
                Ok(name) => {
                    proof {
                        lemma_names_view_push(parameters@, name);
                        if first {
                            assert(names_view(parameters@) =~= Seq::<Seq<char>>::empty());
                            assert(names_view(parameters@).push(name@) =~= seq![name@]);
                        }
                    }
                    parameters.push(name);
                },
                Err(e) => return Err(e),
            }
            first = false;
        }
        self.next_token();
        proof {
            if first {
                assert(names_view(parameters@) =~= Seq::<Seq<char>>::empty());
            }
        }
        Ok(parameters)
    }
}

} // verus!
