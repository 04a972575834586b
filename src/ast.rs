//! The syntax tree, its mathematical view, and its canonical rendering.
use vstd::prelude::*;

use crate::text::{int_text, push_char, push_int, push_str};
use crate::token::{token_text, Token, TokenView};

verus! {

/// An expression; each sub-expression is owned by its parent.
#[derive(Debug, PartialEq, Eq, Hash)]
pub enum Expression {
    Int(i64),
    Ident(String),
    Boolean(bool),
    /// A parenthesized expression.
    Grouped(Box<Expression>),
    If {
        condition: Box<Expression>,
        consequence: Box<Expression>,
        alternative: Option<Box<Expression>>,
    },
    Prefix { operator: Token, right: Box<Expression> },
    Infix { operator: Token, left: Box<Expression>, right: Box<Expression> },
    /// A function literal: its parameter names and its body block.
    Function { parameters: Vec<String>, body: Box<Expression> },
    /// A sequence of statements, in source order.
    Block(Vec<Statement>),
}

/// A statement.
#[derive(Debug, PartialEq, Eq, Hash)]
pub enum Statement {
    Let { identifier: String, expr: Expression },
    Return(Expression),
    Expr(Expression),
}

/// The mathematical value of an expression.
pub enum ExprView {
    Int(i64),
    Ident(Seq<char>),
    Boolean(bool),
    Grouped(Box<ExprView>),
    If {
        condition: Box<ExprView>,
        consequence: Box<ExprView>,
        alternative: Option<Box<ExprView>>,
    },
    Prefix { operator: TokenView, right: Box<ExprView> },
    Infix { operator: TokenView, left: Box<ExprView>, right: Box<ExprView> },
    Function { parameters: Seq<Seq<char>>, body: Box<ExprView> },
    Block(Seq<StmtView>),
}

/// The mathematical value of a statement.
pub enum StmtView {
    Let { identifier: Seq<char>, expr: ExprView },
    Return(ExprView),
    Expr(ExprView),
}

pub open spec fn names_view(v: Seq<String>) -> Seq<Seq<char>> {
    v.map_values(|n: String| n@)
}

pub open spec fn expr_view(e: Expression) -> ExprView
    decreases e,
{
    match e {
        Expression::Int(v) => ExprView::Int(v),
        Expression::Ident(n) => ExprView::Ident(n@),
        Expression::Boolean(b) => ExprView::Boolean(b),
        Expression::Grouped(inner) => ExprView::Grouped(Box::new(expr_view(*inner))),
        Expression::If { condition, consequence, alternative } => ExprView::If {
            condition: Box::new(expr_view(*condition)),
            consequence: Box::new(expr_view(*consequence)),
            alternative: match alternative {
                Some(alt) => Some(Box::new(expr_view(*alt))),
                None => None,
            },
        },
        Expression::Prefix { operator, right } => ExprView::Prefix {
            operator: operator@,
            right: Box::new(expr_view(*right)),
        },
        Expression::Infix { operator, left, right } => ExprView::Infix {
            operator: operator@,
            left: Box::new(expr_view(*left)),
            right: Box::new(expr_view(*right)),
        },
        Expression::Function { parameters, body } => ExprView::Function {
            parameters: names_view(parameters@),
            body: Box::new(expr_view(*body)),
        },
        Expression::Block(statements) => ExprView::Block(stmts_view(statements@)),
    }
}

pub open spec fn stmt_view(s: Statement) -> StmtView
    decreases s,
{
    match s {
        Statement::Let { identifier, expr } => StmtView::Let {
            identifier: identifier@,
            expr: expr_view(expr),
        },
        Statement::Return(e) => StmtView::Return(expr_view(e)),
        Statement::Expr(e) => StmtView::Expr(expr_view(e)),
    }
}

pub open spec fn stmts_view(v: Seq<Statement>) -> Seq<StmtView>
    decreases v,
{
    if v.len() == 0 {
        seq![]
    } else {
        stmts_view(v.subrange(0, v.len() - 1)).push(stmt_view(v[v.len() - 1]))
    }
}

impl View for Expression {
    type V = ExprView;

    open spec fn view(&self) -> ExprView {
        expr_view(*self)
    }
}

impl View for Statement {
    type V = StmtView;

    open spec fn view(&self) -> StmtView {
        stmt_view(*self)
    }
}

/// Appending one statement to a sequence appends its view.
pub proof fn lemma_stmts_view_push(v: Seq<Statement>, s: Statement)
    ensures
        stmts_view(v.push(s)) == stmts_view(v).push(stmt_view(s)),
{
    assert(v.push(s).subrange(0, v.len() as int) =~= v);
}

/// Appending one name to a sequence appends its view.
pub proof fn lemma_names_view_push(v: Seq<String>, n: String)
    ensures
        names_view(v.push(n)) == names_view(v).push(n@),
{
    assert(names_view(v.push(n)) =~= names_view(v).push(n@));
}

pub open spec fn bool_text(b: bool) -> Seq<char> {
    if b {
        seq!['t', 'r', 'u', 'e']
    } else {
        seq!['f', 'a', 'l', 's', 'e']
    }
}

/// Names separated by commas.
pub open spec fn join_names(ns: Seq<Seq<char>>) -> Seq<char>
    decreases ns.len(),
{
    if ns.len() == 0 {
        seq![]
    } else if ns.len() == 1 {
        ns[0]
    } else {
        join_names(ns.drop_last()) + seq![','] + ns.last()
    }
}

/// The canonical rendering of an expression: every prefix and infix
/// operation fully parenthesized, grouping parentheses dropped, blocks as
/// their statements run together.
pub open spec fn render_expr(e: ExprView) -> Seq<char>
    decreases e,
{
    match e {
        ExprView::Int(v) => int_text(v as int),
        ExprView::Ident(n) => n,
        ExprView::Boolean(b) => bool_text(b),
        ExprView::Grouped(inner) => render_expr(*inner),
        ExprView::If { condition, consequence, alternative } => {
            let head = seq!['I', 'f'] + render_expr(*condition) + seq!['{'] + render_expr(
                *consequence,
            ) + seq!['}'];
            match alternative {
                Some(alt) => head + seq!['e', 'l', 's', 'e', '{'] + render_expr(*alt) + seq!['}'],
                None => head,
            }
        },
        ExprView::Prefix { operator, right } => seq!['('] + token_text(operator) + render_expr(
            *right,
        ) + seq![')'],
        ExprView::Infix { operator, left, right } => seq!['('] + render_expr(*left) + token_text(
            operator,
        ) + render_expr(*right) + seq![')'],
        ExprView::Function { parameters, body } => seq!['f', 'n', '('] + join_names(parameters)
            + seq![')', '{'] + match *body {
            ExprView::Block(ss) => render_stmts(ss, true),
            other => render_expr(other) + seq![';'],
        } + seq!['}'],
        ExprView::Block(ss) => render_stmts(ss, false),
    }
}

/// Statements run together, each followed by `;` when `terminated`.
pub open spec fn render_stmts(ss: Seq<StmtView>, terminated: bool) -> Seq<char>
    decreases ss,
{
    if ss.len() == 0 {
        seq![]
    } else {
        render_stmts(ss.subrange(0, ss.len() - 1), terminated) + render_stmt(ss[ss.len() - 1]) + if terminated {
            seq![';']
        } else {
            seq![]
        }
    }
}

/// The canonical rendering of a statement.
pub open spec fn render_stmt(s: StmtView) -> Seq<char>
    decreases s,
{
    match s {
        StmtView::Let { identifier, expr } => seq!['L', 'e', 't', ' '] + identifier + seq!['=']
            + render_expr(expr),
        StmtView::Return(e) => seq!['r', 'e', 't', 'u', 'r', 'n', ' '] + render_expr(e),
        StmtView::Expr(e) => render_expr(e),
    }
}

impl Expression {
    /// Appends the canonical rendering of this expression to `out`.
    pub fn write_to(&self, out: &mut String)
        ensures
            final(out)@ == old(out)@ + render_expr(self@),
        decreases self,
    {
        match self {
            Expression::Int(v) => push_int(out, *v),
            Expression::Ident(n) => push_str(out, n.as_str()),
            Expression::Boolean(b) => {
                if *b {
                    push_str(out, "true");
                    proof {
                        reveal_strlit("true");
                    }
                } else {
                    push_str(out, "false");
                    proof {
                        reveal_strlit("false");
                    }
                }
            },
            Expression::Grouped(inner) => inner.write_to(out),
            Expression::If { condition, consequence, alternative } => {
                push_str(out, "If");
                condition.write_to(out);
                push_char(out, '{');
                consequence.write_to(out);
                push_char(out, '}');
                match alternative {
                    Some(alt) => {
                        push_str(out, "else{");
                        alt.write_to(out);
                        push_char(out, '}');
                    },
                    None => {},
                }
                proof {
                    reveal_strlit("If");
                    reveal_strlit("else{");
                    assert(out@ =~= old(out)@ + render_expr(self@));
                }
            },
            Expression::Prefix { operator, right } => {
                push_char(out, '(');
                operator.write_to(out);
                right.write_to(out);
                push_char(out, ')');
                proof {
                    assert(out@ =~= old(out)@ + render_expr(self@));
                }
            },
            Expression::Infix { operator, left, right } => {
                push_char(out, '(');
                left.write_to(out);
                operator.write_to(out);
                right.write_to(out);
                push_char(out, ')');
                proof {
                    assert(out@ =~= old(out)@ + render_expr(self@));
                }
            },
            Expression::Function { parameters, body } => {
                push_str(out, "fn(");
                write_names(parameters, out);
                push_str(out, "){");
                let ghost before_body = out@;
                let ghost bv = expr_view(**body);
                match &**body {
                    Expression::Block(statements) => write_statements(statements, true, out),
                    other => {
                        other.write_to(out);
                        push_char(out, ';');
                    },
                }
                proof {
                    assert(out@ =~= before_body + match bv {
                        ExprView::Block(ss) => render_stmts(ss, true),
                        other => render_expr(other) + seq![';'],
                    });
                }
                push_char(out, '}');
                proof {
                    reveal_strlit("fn(");
                    reveal_strlit("){");
                    assert(out@ =~= old(out)@ + render_expr(self@));
                }
            },
            Expression::Block(statements) => write_statements(statements, false, out),
        }
    }

    /// The canonical rendering of this expression.
    pub fn to_string(&self) -> (r: String)
        ensures
            r@ == render_expr(self@),
    {
        let mut out = String::new();
        self.write_to(&mut out);
        proof {
            assert(out@ =~= render_expr(self@));
        }
        out
    }
}

fn write_names(names: &Vec<String>, out: &mut String)
    ensures
        final(out)@ == old(out)@ + join_names(names_view(names@)),
{
    let mut i: usize = 0;
    while i < names.len()
        invariant
            i <= names.len(),
            out@ == old(out)@ + join_names(names_view(names@.subrange(0, i as int))),
        decreases names.len() - i,
    {
        proof {
            assert(names@.subrange(0, i as int + 1) =~= names@.subrange(0, i as int).push(names@[i as int]));
            lemma_names_view_push(names@.subrange(0, i as int), names@[i as int]);
        }
        if i > 0 {
            push_char(out, ',');
        }
        push_str(out, names[i].as_str());
        i = i + 1;
        proof {
            let vs = names_view(names@.subrange(0, i as int));
            assert(vs.drop_last() =~= names_view(names@.subrange(0, i as int - 1)));
            assert(out@ =~= old(out)@ + join_names(vs));
        }
    }
    assert(names@.subrange(0, i as int) =~= names@);
}

fn write_statements(statements: &Vec<Statement>, terminated: bool, out: &mut String)
    ensures
        final(out)@ == old(out)@ + render_stmts(stmts_view(statements@), terminated),
    decreases statements,
{
    let mut i: usize = 0;
    while i < statements.len()
        invariant
            i <= statements.len(),
            out@ == old(out)@ + render_stmts(
                stmts_view(statements@.subrange(0, i as int)),
                terminated,
            ),
        decreases statements.len() - i,
    {
        proof {
            assert(statements@.subrange(0, i as int + 1) =~= statements@.subrange(0, i as int).push(
                statements@[i as int],
            ));
            lemma_stmts_view_push(statements@.subrange(0, i as int), statements@[i as int]);
        }
        statements[i].write_to(out);
        if terminated {
            push_char(out, ';');
        }
        i = i + 1;
        proof {
            let vs = stmts_view(statements@.subrange(0, i as int));
            assert(vs.subrange(0, vs.len() - 1) =~= stmts_view(statements@.subrange(0, i as int - 1)));
            assert(out@ =~= old(out)@ + render_stmts(vs, terminated));
        }
    }
    assert(statements@.subrange(0, i as int) =~= statements@);
}

impl Statement {
    /// Appends the canonical rendering of this statement to `out`.
    pub fn write_to(&self, out: &mut String)
        ensures
            final(out)@ == old(out)@ + render_stmt(self@),
        decreases self,
    {
        match self {
            Statement::Let { identifier, expr } => {
                push_str(out, "Let ");
                push_str(out, identifier.as_str());
                push_char(out, '=');
                expr.write_to(out);
                proof {
                    reveal_strlit("Let ");
                    assert(out@ =~= old(out)@ + render_stmt(self@));
                }
            },
            Statement::Return(e) => {
                push_str(out, "return ");
                e.write_to(out);
                proof {
                    reveal_strlit("return ");
                    assert(out@ =~= old(out)@ + render_stmt(self@));
                }
            },
            Statement::Expr(e) => e.write_to(out),
        }
    }

    /// The canonical rendering of this statement.
    pub fn to_string(&self) -> (r: String)
        ensures
            r@ == render_stmt(self@),
    {
        let mut out = String::new();
        self.write_to(&mut out);
        proof {
            assert(out@ =~= render_stmt(self@));
        }
        out
    }
}

} // verus!
