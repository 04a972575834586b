//! Reading back the canonical rendering of an expression.
//!
//! The canonical rendering writes every prefix and infix operation inside
//! parentheses and drops grouping parentheses. Parsing its tokens again
//! yields the same tree with each operation wrapped in a group, and that
//! tree renders to the same tokens and text, so a second round changes
//! nothing.
use vstd::prelude::*;

use crate::ast::{render_expr, ExprView, StmtView};
use crate::grammar::{
    adv, expression_at, infix_loop, lowest, parse_tokens, precedence, prefix_at, prefix_level,
    program_from, statement_at, tok, ParseErrorView,
};
use crate::token::TokenView;

verus! {

/// Expressions made of literals, names, groups, and prefix (`!`, `-`) and
/// infix (binary operator) operations.
pub open spec fn plain_expression(e: ExprView) -> bool
    decreases e,
{
    match e {
        ExprView::Int(_) | ExprView::Ident(_) | ExprView::Boolean(_) => true,
        ExprView::Grouped(inner) => plain_expression(*inner),
        ExprView::Prefix { operator, right } => (operator == TokenView::Bang || operator
            == TokenView::Minus) && plain_expression(*right),
        ExprView::Infix { operator, left, right } => precedence(operator) > 0 && plain_expression(
            *left,
        ) && plain_expression(*right),
        _ => false,
    }
}

/// The tokens of the canonical rendering of an expression.
pub open spec fn expr_tokens(e: ExprView) -> Seq<TokenView>
    decreases e,
{
    match e {
        ExprView::Int(v) => seq![TokenView::Int(v)],
        ExprView::Ident(n) => seq![TokenView::Ident(n)],
        ExprView::Boolean(b) => seq![if b { TokenView::True } else { TokenView::False }],
        ExprView::Grouped(inner) => expr_tokens(*inner),
        ExprView::Prefix { operator, right } => seq![TokenView::LParen, operator] + expr_tokens(
            *right,
        ) + seq![TokenView::RParen],
        ExprView::Infix { operator, left, right } => seq![TokenView::LParen] + expr_tokens(*left)
            + seq![operator] + expr_tokens(*right) + seq![TokenView::RParen],
        _ => seq![],
    }
}

/// The tree with every operation wrapped in a group and earlier groups
/// dropped: what the parser builds from canonical tokens.
pub open spec fn regrouped(e: ExprView) -> ExprView
    decreases e,
{
    match e {
        ExprView::Grouped(inner) => regrouped(*inner),
        ExprView::Prefix { operator, right } => ExprView::Grouped(
            Box::new(ExprView::Prefix { operator, right: Box::new(regrouped(*right)) }),
        ),
        ExprView::Infix { operator, left, right } => ExprView::Grouped(
            Box::new(
                ExprView::Infix {
                    operator,
                    left: Box::new(regrouped(*left)),
                    right: Box::new(regrouped(*right)),
                },
            ),
        ),
        _ => e,
    }
}

proof fn lemma_tokens_nonempty(e: ExprView)
    requires
        plain_expression(e),
    ensures
        expr_tokens(e).len() >= 1,
    decreases e,
{
    if let ExprView::Grouped(inner) = e {
        lemma_tokens_nonempty(*inner);
    }
}

/// Regrouping keeps an expression plain, its tokens and its rendering, and
/// doing it twice is doing it once.
proof fn lemma_regrouped(e: ExprView)
    requires
        plain_expression(e),
    ensures
        plain_expression(regrouped(e)),
        expr_tokens(regrouped(e)) == expr_tokens(e),
        render_expr(regrouped(e)) == render_expr(e),
        regrouped(regrouped(e)) == regrouped(e),
    decreases e,
{
    match e {
        ExprView::Grouped(inner) => {
            lemma_regrouped(*inner);
            assert(regrouped(e) == regrouped(*inner));
            assert(expr_tokens(e) == expr_tokens(*inner));
            assert(render_expr(e) == render_expr(*inner));
        },
        ExprView::Prefix { operator, right } => {
            lemma_regrouped(*right);
            let inner = ExprView::Prefix { operator, right: Box::new(regrouped(*right)) };
            assert(plain_expression(inner));
            assert(expr_tokens(inner) == expr_tokens(e));
            assert(render_expr(inner) == render_expr(e));
            assert(regrouped(inner) == regrouped(e));
        },
        ExprView::Infix { operator, left, right } => {
            lemma_regrouped(*left);
            lemma_regrouped(*right);
            let inner = ExprView::Infix {
                operator,
                left: Box::new(regrouped(*left)),
                right: Box::new(regrouped(*right)),
            };
            assert(plain_expression(inner));
            assert(expr_tokens(inner) == expr_tokens(e));
            assert(render_expr(inner) == render_expr(e));
            assert(regrouped(inner) == regrouped(e));
        },
        _ => {},
    }
}

/// The canonical tokens of `e`, starting at index `i`, are read as one
/// term ending on their last token, whatever follows.
proof fn lemma_prefix_reads_back(ts: Seq<TokenView>, i: int, e: ExprView)
    requires
        plain_expression(e),
        0 <= i,
        i + expr_tokens(e).len() <= ts.len(),
        ts.subrange(i, i + expr_tokens(e).len()) == expr_tokens(e),
    ensures
        prefix_at(ts, i) == (
            Ok::<ExprView, ParseErrorView>(regrouped(e)),
            i + expr_tokens(e).len() - 1,
            Seq::<ParseErrorView>::empty(),
        ),
    decreases e, 0nat,
{
    lemma_tokens_nonempty(e);
    let n = expr_tokens(e).len() as int;
    let none = Seq::<ParseErrorView>::empty();
    assert(none + none =~= none);
    assert(ts.subrange(i, i + n)[0] == ts[i]);
    match e {
        ExprView::Grouped(inner) => {
            lemma_prefix_reads_back(ts, i, *inner);
        },
        ExprView::Prefix { operator, right } => {
            let rt = expr_tokens(*right);
            lemma_tokens_nonempty(*right);
            let m = rt.len() as int;
            assert(ts.subrange(i, i + n)[1] == ts[i + 1]);
            assert(ts.subrange(i + 2, i + 2 + m) =~= rt) by {
                assert forall|k: int| 0 <= k < m implies ts.subrange(i + 2, i + 2 + m)[k] == rt[k] by {
                    assert(ts.subrange(i, i + n)[2 + k] == ts[i + 2 + k]);
                }
            }
            assert(ts.subrange(i, i + n)[n - 1] == ts[i + n - 1]);
            lemma_prefix_reads_back(ts, i + 2, *right);
            lemma_expression_reads_back(ts, i + 2, *right, prefix_level());
            let inner = ExprView::Prefix { operator, right: Box::new(regrouped(*right)) };
            lemma_expression_stops(ts, inner, i + n - 2, lowest());
            assert(prefix_at(ts, i + 1) == (
                Ok::<ExprView, ParseErrorView>(inner),
                i + n - 2,
                none,
            ));
            assert(expression_at(ts, i + 1, lowest()) == (
                Ok::<ExprView, ParseErrorView>(inner),
                i + n - 2,
                none,
            ));
        },
        ExprView::Infix { operator, left, right } => {
            let lt = expr_tokens(*left);
            let rt = expr_tokens(*right);
            lemma_tokens_nonempty(*left);
            lemma_tokens_nonempty(*right);
            let a = lt.len() as int;
            let b = rt.len() as int;
            assert(ts.subrange(i + 1, i + 1 + a) =~= lt) by {
                assert forall|k: int| 0 <= k < a implies ts.subrange(i + 1, i + 1 + a)[k] == lt[k] by {
                    assert(ts.subrange(i, i + n)[1 + k] == ts[i + 1 + k]);
                }
            }
            assert(ts.subrange(i, i + n)[1 + a] == ts[i + 1 + a]);
            assert(ts.subrange(i + 2 + a, i + 2 + a + b) =~= rt) by {
                assert forall|k: int| 0 <= k < b implies ts.subrange(i + 2 + a, i + 2 + a + b)[k] == rt[k] by {
                    assert(ts.subrange(i, i + n)[2 + a + k] == ts[i + 2 + a + k]);
                }
            }
            assert(ts.subrange(i, i + n)[n - 1] == ts[i + n - 1]);
            lemma_prefix_reads_back(ts, i + 1, *left);
            lemma_expression_reads_back(ts, i + 2 + a, *right, precedence(operator));
            let combined = ExprView::Infix {
                operator,
                left: Box::new(regrouped(*left)),
                right: Box::new(regrouped(*right)),
            };
            lemma_expression_stops(ts, combined, i + n - 2, lowest());
            assert(infix_loop(ts, regrouped(*left), i + a, lowest()) == (
                Ok::<ExprView, ParseErrorView>(combined),
                i + n - 2,
                none,
            ));
            assert(expression_at(ts, i + 1, lowest()) == (
                Ok::<ExprView, ParseErrorView>(combined),
                i + n - 2,
                none,
            ));
        },
        _ => {},
    }
}

/// Where the token after index `j` binds no tighter than `prec`, the
/// operator loop stops at once.
proof fn lemma_expression_stops(ts: Seq<TokenView>, left: ExprView, j: int, prec: nat)
    requires
        tok(ts, j + 1) == TokenView::RParen || tok(ts, j + 1) is Eof,
    ensures
        infix_loop(ts, left, j, prec) == (
            Ok::<ExprView, ParseErrorView>(left),
            j,
            Seq::<ParseErrorView>::empty(),
        ),
{
}

/// The canonical tokens of `e` at index `i`, followed by `)` or the end of
/// input, are read as one expression at any binding power.
proof fn lemma_expression_reads_back(ts: Seq<TokenView>, i: int, e: ExprView, prec: nat)
    requires
        plain_expression(e),
        0 <= i,
        i + expr_tokens(e).len() <= ts.len(),
        ts.subrange(i, i + expr_tokens(e).len()) == expr_tokens(e),
        tok(ts, i + expr_tokens(e).len()) == TokenView::RParen || tok(
            ts,
            i + expr_tokens(e).len(),
        ) is Eof,
    ensures
        expression_at(ts, i, prec) == (
            Ok::<ExprView, ParseErrorView>(regrouped(e)),
            i + expr_tokens(e).len() - 1,
            Seq::<ParseErrorView>::empty(),
        ),
    decreases e, 1nat,
{
    lemma_prefix_reads_back(ts, i, e);
    lemma_expression_stops(ts, regrouped(e), i + expr_tokens(e).len() - 1, prec);
    assert(Seq::<ParseErrorView>::empty() + Seq::<
        ParseErrorView,
    >::empty() =~= Seq::<ParseErrorView>::empty());
}

/// Parsing the canonical tokens of a plain expression gives one
/// expression statement holding the regrouped expression, with no
/// diagnostics. The regrouped expression has the same tokens and the same
/// rendering, and regrouping it again changes nothing: rendering the parsed
/// tree and parsing that again gives an equal tree.
pub proof fn law_reparse_canonical_tokens(e: ExprView)
    requires
        plain_expression(e),
    ensures
        parse_tokens(expr_tokens(e)) == (
            seq![StmtView::Expr(regrouped(e))],
            Seq::<ParseErrorView>::empty(),
        ),
        expr_tokens(regrouped(e)) == expr_tokens(e),
        render_expr(regrouped(e)) == render_expr(e),
        parse_tokens(expr_tokens(regrouped(e))) == parse_tokens(expr_tokens(e)),
        regrouped(regrouped(e)) == regrouped(e),
{
    let ts = expr_tokens(e);
    let n = ts.len() as int;
    lemma_tokens_nonempty(e);
    lemma_regrouped(e);
    assert(ts.subrange(0, n) =~= ts);
    lemma_expression_reads_back(ts, 0, e, lowest());
    let r = statement_at(ts, 0);
    assert(r == (
        Ok::<StmtView, ParseErrorView>(StmtView::Expr(regrouped(e))),
        n - 1,
        Seq::<ParseErrorView>::empty(),
    ));
    assert(adv(ts, n - 1) == n);
    let acc = seq![StmtView::Expr(regrouped(e))];
    assert(program_from(ts, n, acc) == (acc, Seq::<ParseErrorView>::empty()));
    assert(Seq::<StmtView>::empty().push(StmtView::Expr(regrouped(e))) == acc);
    assert(Seq::<ParseErrorView>::empty() + Seq::<
        ParseErrorView,
    >::empty() =~= Seq::<ParseErrorView>::empty());
}

} // verus!
