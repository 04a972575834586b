//! The meaning of parsing, stated over the token sequence: what each
//! production yields when the current token is at a given index, where the
//! cursor stands afterwards, and which diagnostics it records on the way.
//!
//! Indices past the end of the sequence stand for the end of input. Each
//! production leaves the cursor on its own last token.
//!
//! Where a production goes on from the cursor that a sub-production left,
//! the definition first checks that the cursor moved forward and stayed in
//! the sequence, which makes the definitions terminate. The parser's
//! contracts show that the cursor always does, so those branches are never
//! the ones taken.
use vstd::prelude::*;

use crate::ast::{ExprView, StmtView};
use crate::token::TokenView;

verus! {

/// The mathematical value of a diagnostic.
pub enum ParseErrorView {
    /// A specific token was required next and another one was found.
    Unexpected { expected: TokenView, found: TokenView },
    /// An identifier was required next and another token was found.
    ExpectedIdent { found: TokenView },
    /// No expression can start with the token found.
    NoPrefix { found: TokenView },
}

pub type ExprStep = (Result<ExprView, ParseErrorView>, int, Seq<ParseErrorView>);

pub type StmtStep = (Result<StmtView, ParseErrorView>, int, Seq<ParseErrorView>);

pub type BlockStep = (Seq<StmtView>, int, Seq<ParseErrorView>);

pub type ParamsStep = (Result<Seq<Seq<char>>, ParseErrorView>, int);

/// Binding power of the lowest level, and of prefix operators.
pub open spec fn lowest() -> nat {
    0
}

pub open spec fn prefix_level() -> nat {
    5
}

/// The token at index `i`; `Eof` outside the sequence.
pub open spec fn tok(ts: Seq<TokenView>, i: int) -> TokenView {
    if 0 <= i < ts.len() {
        ts[i]
    } else {
        TokenView::Eof
    }
}

/// The index after `i`, stopping at the end of input.
pub open spec fn adv(ts: Seq<TokenView>, i: int) -> int {
    if i < ts.len() {
        i + 1
    } else {
        i
    }
}

/// Binding power of a token in infix position: `==`/`!=` 1, `<`/`>` 2,
/// `+`/`-` 3, `*`/`/` 4, and 0 for every other token.
pub open spec fn precedence(t: TokenView) -> nat {
    match t {
        TokenView::Eq | TokenView::NotEq => 1,
        TokenView::Lt | TokenView::Gt => 2,
        TokenView::Plus | TokenView::Minus => 3,
        TokenView::Asterisk | TokenView::Slash => 4,
        _ => 0,
    }
}

/// The first index at or after `c` whose token is `stop` or the end of input.
pub open spec fn skip_to(ts: Seq<TokenView>, c: int, stop: TokenView) -> int
    decreases ts.len() - c,
{
    if tok(ts, c) == stop || tok(ts, c) is Eof {
        c
    } else {
        skip_to(ts, c + 1, stop)
    }
}

/// An expression at index `i` whose infix operators bind tighter than `prec`.
pub open spec fn expression_at(ts: Seq<TokenView>, i: int, prec: nat) -> ExprStep
    decreases ts.len() - i, 6nat,
{
    let pre = prefix_at(ts, i);
    match pre.0 {
        Ok(left) => {
            if pre.1 < i || pre.1 > ts.len() {
                pre
            } else {
                let rest = infix_loop(ts, left, pre.1, prec);
                (rest.0, rest.1, pre.2 + rest.2)
            }
        },
        Err(_) => pre,
    }
}

/// Extends `left`, which ends at index `j`, with infix operations while the
/// next token binds tighter than `prec`.
pub open spec fn infix_loop(ts: Seq<TokenView>, left: ExprView, j: int, prec: nat) -> ExprStep
    decreases ts.len() - j, 5nat,
{
    let op = tok(ts, j + 1);
    if op != TokenView::Semicolon && prec < precedence(op) {
        let r = expression_at(ts, j + 2, precedence(op));
        match r.0 {
            Ok(right) => {
                let combined = ExprView::Infix {
                    operator: op,
                    left: Box::new(left),
                    right: Box::new(right),
                };
                if r.1 < j + 2 || r.1 > ts.len() {
                    (Ok(combined), r.1, r.2)
                } else {
                    let rest = infix_loop(ts, combined, r.1, prec);
                    (rest.0, rest.1, r.2 + rest.2)
                }
            },
            Err(_) => r,
        }
    } else {
        (Ok(left), j, seq![])
    }
}

/// The term that starts an expression at index `i`.
pub open spec fn prefix_at(ts: Seq<TokenView>, i: int) -> ExprStep
    decreases ts.len() - i, 4nat,
{
    match tok(ts, i) {
        TokenView::Ident(name) => (Ok(ExprView::Ident(name)), i, seq![]),
        TokenView::Int(v) => (Ok(ExprView::Int(v)), i, seq![]),
        TokenView::True => (Ok(ExprView::Boolean(true)), i, seq![]),
        TokenView::False => (Ok(ExprView::Boolean(false)), i, seq![]),
        TokenView::LParen => {
            let r = expression_at(ts, i + 1, lowest());
            match r.0 {
                Ok(e) => if tok(ts, r.1 + 1) == TokenView::RParen {
                    (Ok(ExprView::Grouped(Box::new(e))), r.1 + 1, r.2)
                } else {
                    (
                        Err(
                            ParseErrorView::Unexpected {
                                expected: TokenView::RParen,
                                found: tok(ts, r.1 + 1),
                            },
                        ),
                        r.1,
                        r.2,
                    )
                },
                Err(_) => r,
            }
        },
        TokenView::Bang | TokenView::Minus => {
            let r = expression_at(ts, i + 1, prefix_level());
            match r.0 {
                Ok(e) => (
                    Ok(ExprView::Prefix { operator: tok(ts, i), right: Box::new(e) }),
                    r.1,
                    r.2,
                ),
                Err(_) => r,
            }
        },
        TokenView::If => if_at(ts, i),
        TokenView::Function => function_at(ts, i),
        t => (Err(ParseErrorView::NoPrefix { found: t }), i, seq![]),
    }
}

/// A conditional whose `if` is at index `i`.
pub open spec fn if_at(ts: Seq<TokenView>, i: int) -> ExprStep
    decreases ts.len() - i, 3nat,
{
    if tok(ts, i + 1) != TokenView::LParen {
        (
            Err(ParseErrorView::Unexpected { expected: TokenView::LParen, found: tok(ts, i + 1) }),
            i,
            seq![],
        )
    } else {
        let c = expression_at(ts, i + 2, lowest());
        match c.0 {
            Ok(condition) => {
                if c.1 < i || c.1 > ts.len() {
                    c
                } else if tok(ts, c.1 + 1) != TokenView::RParen {
                    (
                        Err(
                            ParseErrorView::Unexpected {
                                expected: TokenView::RParen,
                                found: tok(ts, c.1 + 1),
                            },
                        ),
                        c.1,
                        c.2,
                    )
                } else if tok(ts, c.1 + 2) != TokenView::LBrace {
                    (
                        Err(
                            ParseErrorView::Unexpected {
                                expected: TokenView::LBrace,
                                found: tok(ts, c.1 + 2),
                            },
                        ),
                        c.1 + 1,
                        c.2,
                    )
                } else {
                    let b = block_from(ts, c.1 + 3, seq![]);
                    let consequence = Box::new(ExprView::Block(b.0));
                    if b.1 < c.1 + 3 || b.1 > ts.len() {
                        (Ok(ExprView::If { condition: Box::new(condition), consequence, alternative: None }), b.1, c.2 + b.2)
                    } else if tok(ts, b.1 + 1) != TokenView::Else {
                        (
                            Ok(
                                ExprView::If {
                                    condition: Box::new(condition),
                                    consequence,
                                    alternative: None,
                                },
                            ),
                            b.1,
                            c.2 + b.2,
                        )
                    } else if tok(ts, b.1 + 2) != TokenView::LBrace {
                        (
                            Err(
                                ParseErrorView::Unexpected {
                                    expected: TokenView::LBrace,
                                    found: tok(ts, b.1 + 2),
                                },
                            ),
                            b.1 + 1,
                            c.2 + b.2,
                        )
                    } else {
                        let a = block_from(ts, b.1 + 3, seq![]);
                        (
                            Ok(
                                ExprView::If {
                                    condition: Box::new(condition),
                                    consequence,
                                    alternative: Some(Box::new(ExprView::Block(a.0))),
                                },
                            ),
                            a.1,
                            c.2 + b.2 + a.2,
                        )
                    }
                }
            },
            Err(_) => c,
        }
    }
}

/// A function literal whose `fn` is at index `i`.
pub open spec fn function_at(ts: Seq<TokenView>, i: int) -> ExprStep
    decreases ts.len() - i, 3nat,
{
    if tok(ts, i + 1) != TokenView::LParen {
        (
            Err(ParseErrorView::Unexpected { expected: TokenView::LParen, found: tok(ts, i + 1) }),
            i,
            seq![],
        )
    } else {
        let p = parameters_at(ts, i + 1);
        match p.0 {
            Ok(names) => {
                if p.1 < i {
                    (Err(ParseErrorView::NoPrefix { found: TokenView::Function }), p.1, seq![])
                } else if tok(ts, p.1 + 1) != TokenView::LBrace {
                    (
                        Err(
                            ParseErrorView::Unexpected {
                                expected: TokenView::LBrace,
                                found: tok(ts, p.1 + 1),
                            },
                        ),
                        p.1,
                        seq![],
                    )
                } else {
                    let b = block_from(ts, p.1 + 2, seq![]);
                    (
                        Ok(
                            ExprView::Function {
                                parameters: names,
                                body: Box::new(ExprView::Block(b.0)),
                            },
                        ),
                        b.1,
                        b.2,
                    )
                }
            },
            Err(e) => (Err(e), p.1, seq![]),
        }
    }
}

/// A parameter list whose `(` is at index `i`: identifiers separated by
/// commas, up to the `)` where the cursor stops.
pub open spec fn parameters_at(ts: Seq<TokenView>, i: int) -> ParamsStep {
    if tok(ts, i + 1) == TokenView::RParen {
        (Ok(seq![]), i + 1)
    } else {
        match tok(ts, i + 1) {
            TokenView::Ident(name) => parameters_rest(ts, i + 1, seq![name]),
            t => (Err(ParseErrorView::ExpectedIdent { found: t }), i),
        }
    }
}

/// The rest of a parameter list after the identifier at index `c`.
pub open spec fn parameters_rest(ts: Seq<TokenView>, c: int, names: Seq<Seq<char>>) -> ParamsStep
    decreases ts.len() - c,
{
    if tok(ts, c + 1) == TokenView::RParen {
        (Ok(names), c + 1)
    } else if tok(ts, c + 1) != TokenView::Comma {
        (Err(ParseErrorView::Unexpected { expected: TokenView::Comma, found: tok(ts, c + 1) }), c)
    } else {
        match tok(ts, c + 2) {
            TokenView::Ident(name) => parameters_rest(ts, c + 2, names.push(name)),
            t => (Err(ParseErrorView::ExpectedIdent { found: t }), c + 1),
        }
    }
}

/// The statements of a block from index `c` on, after those in `acc`, up
/// to the closing `}` or the end of input, where the cursor stops. The
/// first failed statement is recorded and ends the block at the next `}`.
pub open spec fn block_from(ts: Seq<TokenView>, c: int, acc: Seq<StmtView>) -> BlockStep
    decreases ts.len() - c, 9nat,
{
    let t = tok(ts, c);
    if t == TokenView::RBrace || t is Eof {
        (acc, c, seq![])
    } else {
        let r = statement_at(ts, c);
        match r.0 {
            Ok(s) => {
                if r.1 < c || r.1 > ts.len() {
                    (acc.push(s), r.1, r.2)
                } else {
                    let rest = block_from(ts, adv(ts, r.1), acc.push(s));
                    (rest.0, rest.1, r.2 + rest.2)
                }
            },
            Err(e) => (acc, skip_to(ts, r.1, TokenView::RBrace), r.2.push(e)),
        }
    }
}

/// A statement at index `i`: `let`, `return`, or an expression; the
/// cursor stops on its `;` where it has one.
pub open spec fn statement_at(ts: Seq<TokenView>, i: int) -> StmtStep
    decreases ts.len() - i, 8nat,
{
    match tok(ts, i) {
        TokenView::Let => match tok(ts, i + 1) {
            TokenView::Ident(name) => if tok(ts, i + 2) != TokenView::Assign {
                (
                    Err(
                        ParseErrorView::Unexpected {
                            expected: TokenView::Assign,
                            found: tok(ts, i + 2),
                        },
                    ),
                    i + 1,
                    seq![],
                )
            } else {
                let r = expression_at(ts, i + 3, lowest());
                match r.0 {
                    Ok(e) => if tok(ts, r.1 + 1) == TokenView::Semicolon {
                        (Ok(StmtView::Let { identifier: name, expr: e }), r.1 + 1, r.2)
                    } else {
                        (
                            Err(
                                ParseErrorView::Unexpected {
                                    expected: TokenView::Semicolon,
                                    found: tok(ts, r.1 + 1),
                                },
                            ),
                            r.1,
                            r.2,
                        )
                    },
                    Err(e) => (Err(e), r.1, r.2),
                }
            },
            t => (Err(ParseErrorView::ExpectedIdent { found: t }), i, seq![]),
        },
        TokenView::Return => {
            let r = expression_at(ts, i + 1, lowest());
            match r.0 {
                Ok(e) => if tok(ts, r.1 + 1) == TokenView::Semicolon {
                    (Ok(StmtView::Return(e)), r.1 + 1, r.2)
                } else {
                    (Ok(StmtView::Return(e)), r.1, r.2)
                },
                Err(e) => (Err(e), r.1, r.2),
            }
        },
        _ => {
            let r = expression_at(ts, i, lowest());
            match r.0 {
                Ok(e) => if tok(ts, r.1 + 1) == TokenView::Semicolon {
                    (Ok(StmtView::Expr(e)), r.1 + 1, r.2)
                } else {
                    (Ok(StmtView::Expr(e)), r.1, r.2)
                },
                Err(e) => (Err(e), r.1, r.2),
            }
        },
    }
}

/// The statements of a program from index `c` on, after those in `acc`,
/// and the diagnostics recorded. A failed statement is recorded and
/// parsing resumes after the next `;`.
pub open spec fn program_from(ts: Seq<TokenView>, c: int, acc: Seq<StmtView>) -> (
    Seq<StmtView>,
    Seq<ParseErrorView>,
)
    decreases ts.len() - c,
{
    if tok(ts, c) is Eof {
        (acc, seq![])
    } else {
        let r = statement_at(ts, c);
        match r.0 {
            Ok(s) => {
                if r.1 < c || r.1 > ts.len() {
                    (acc.push(s), r.2)
                } else {
                    let rest = program_from(ts, adv(ts, r.1), acc.push(s));
                    (rest.0, r.2 + rest.1)
                }
            },
            Err(e) => {
                let k = skip_to(ts, r.1, TokenView::Semicolon);
                if k < c || k > ts.len() {
                    (acc, r.2.push(e))
                } else {
                    let rest = program_from(ts, adv(ts, k), acc);
                    (rest.0, r.2.push(e) + rest.1)
                }
            },
        }
    }
}

/// The statements and diagnostics of a whole token sequence.
pub open spec fn parse_tokens(ts: Seq<TokenView>) -> (Seq<StmtView>, Seq<ParseErrorView>) {
    program_from(ts, 0, seq![])
}

} // verus!
