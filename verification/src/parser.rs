//! The parser: from a token sequence to a program.
//!
//! The token sequence is cut into statements at each semicolon; tokens
//! after the last semicolon belong to no terminated statement and are
//! dropped.  A statement whose tokens contain a colon is a variable
//! declaration (`IDENT : expr`); any other statement is a print
//! expression.  Expressions are prefix notation, parsed by recursive
//! descent: every operator's arity is fixed and known before its operands,
//! so one token of lookahead suffices and a successfully parsed statement
//! consumes its tokens exactly.

use crate::lexer::Operator;
use crate::lexer::Token;
use crate::lexer::TokenView;
use crate::lexer::UnaryOperator;
use crate::literal::copy_chars;
use vstd::prelude::*;

verus! {

/// An expression: a finite tree over numeric literals and variable
/// references.  Binary and unary applications carry operators from two
/// disjoint enumerations, so a node can never hold an operator of the
/// wrong arity.
#[derive(Debug, PartialEq)]
pub enum Expr {
    /// A numeric literal, carried as the text it was written with.
    Number(Vec<char>),
    /// A reference to a variable.
    Ident(char),
    /// A binary application.
    BinOp { op: Operator, left: Box<Expr>, right: Box<Expr> },
    /// A unary application.
    UnOp { op: UnaryOperator, operand: Box<Expr> },
}

/// The mathematical model of an expression.
pub enum ExprView {
    Number(Seq<char>),
    Ident(char),
    BinOp { op: Operator, left: Box<ExprView>, right: Box<ExprView> },
    UnOp { op: UnaryOperator, operand: Box<ExprView> },
}

/// The model of an expression tree.
pub open spec fn expr_view(e: Expr) -> ExprView
    decreases e,
{
    match e {
        Expr::Number(text) => ExprView::Number(text@),
        Expr::Ident(c) => ExprView::Ident(c),
        Expr::BinOp { op, left, right } => ExprView::BinOp {
            op,
            left: Box::new(expr_view(*left)),
            right: Box::new(expr_view(*right)),
        },
        Expr::UnOp { op, operand } => ExprView::UnOp {
            op,
            operand: Box::new(expr_view(*operand)),
        },
    }
}

impl DeepView for Expr {
    type V = ExprView;

    open spec fn deep_view(&self) -> ExprView {
        expr_view(*self)
    }
}

/// A statement: print the value of an expression, or bind an expression
/// (unevaluated) to a variable.
#[derive(Debug, PartialEq)]
pub enum Statement {
    /// Evaluate the expression and emit the result.
    PrintExpr(Expr),
    /// Bind the expression to the variable, overwriting any prior binding.
    VariableDeclaration { ident: char, expr: Expr },
}

/// The mathematical model of a statement.
pub enum StatementView {
    PrintExpr(ExprView),
    VariableDeclaration { ident: char, expr: ExprView },
}

impl DeepView for Statement {
    type V = StatementView;

    open spec fn deep_view(&self) -> StatementView {
        match self {
            Statement::PrintExpr(e) => StatementView::PrintExpr(e.deep_view()),
            Statement::VariableDeclaration { ident, expr } => StatementView::VariableDeclaration {
                ident: *ident,
                expr: expr.deep_view(),
            },
        }
    }
}

/// A program: its statements, in source order, which is execution order.
#[derive(Debug, PartialEq)]
pub struct Program {
    pub statements: Vec<Statement>,
}

impl DeepView for Program {
    type V = Seq<StatementView>;

    open spec fn deep_view(&self) -> Seq<StatementView> {
        self.statements.deep_view()
    }
}

/// Why parsing failed.
#[derive(Debug, Clone, Copy, PartialEq, Eq)]
pub enum ParseError {
    /// A colon or semicolon stood where an operand was expected, or the
    /// tokens ran out while an operand was still expected.
    InvalidSyntax,
    /// A statement containing a colon did not start with a variable name
    /// followed by the colon.
    MalformedDeclaration,
    /// Tokens were left over after a statement's expression.
    TrailingTokens,
}

/// What parsing one expression at position `i` of `toks` yields: the
/// expression tree and the position just past its tokens.
///
/// The bounds check guarding the second recursive call lets the recursion
/// be measured by the remaining token count alone; `lemma_parse_consumes`
/// shows that the guard never fails on a successful inner parse.
pub open spec fn parse_expr_spec(toks: Seq<TokenView>, i: int) -> Result<
    (ExprView, int),
    ParseError,
>
    decreases toks.len() - i
        when 0 <= i <= toks.len()
{
    if i >= toks.len() {
        Err(ParseError::InvalidSyntax)
    } else {
        match toks[i] {
            TokenView::Number(text) => Ok((ExprView::Number(text), i + 1)),
            TokenView::Ident(c) => Ok((ExprView::Ident(c), i + 1)),
            TokenView::Unary(op) => match parse_expr_spec(toks, i + 1) {
                Ok((operand, j)) => Ok((ExprView::UnOp { op, operand: Box::new(operand) }, j)),
                Err(e) => Err(e),
            },
            TokenView::Operator(op) => match parse_expr_spec(toks, i + 1) {
                Ok((left, j)) => if i + 1 <= j <= toks.len() {
                    match parse_expr_spec(toks, j) {
                        Ok((right, k)) => Ok(
                            (
                                ExprView::BinOp {
                                    op,
                                    left: Box::new(left),
                                    right: Box::new(right),
                                },
                                k,
                            ),
                        ),
                        Err(e) => Err(e),
                    }
                } else {
                    Err(ParseError::InvalidSyntax)
                },
                Err(e) => Err(e),
            },
            TokenView::Colon => Err(ParseError::InvalidSyntax),
            TokenView::SemiColon => Err(ParseError::InvalidSyntax),
        }
    }
}

/// A successful expression parse consumes at least one token and stops
/// within the sequence, so the bounds guard in `parse_expr_spec` never
/// rejects a successful inner parse.
pub proof fn lemma_parse_consumes(toks: Seq<TokenView>, i: int)
    requires
        0 <= i <= toks.len(),
    ensures
        parse_expr_spec(toks, i) matches Ok((e, j)) ==> i < j <= toks.len(),
    decreases toks.len() - i,
{
    if i < toks.len() {
        match toks[i] {
            TokenView::Unary(op) => {
                lemma_parse_consumes(toks, i + 1);
            },
            TokenView::Operator(op) => {
                lemma_parse_consumes(toks, i + 1);
                if let Ok((left, j)) = parse_expr_spec(toks, i + 1) {
                    lemma_parse_consumes(toks, j);
                }
            },
            _ => {},
        }
    }
}

/// The model of an executable expression parse result.
pub open spec fn expr_result_view(r: Result<(Expr, usize), ParseError>) -> Result<
    (ExprView, int),
    ParseError,
> {
    match r {
        Ok((e, j)) => Ok((e.deep_view(), j as int)),
        Err(e) => Err(e),
    }
}

/// Parses one expression out of `tokens`, starting at position `start`;
/// yields the expression and the position just past its tokens.
pub fn parse(tokens: &Vec<Token>, start: usize) -> (r: Result<(Expr, usize), ParseError>)
    requires
        start <= tokens@.len(),
    ensures
        expr_result_view(r) == parse_expr_spec(tokens.deep_view(), start as int),
        r matches Ok((e, j)) ==> start < j <= tokens@.len(),
    decreases tokens@.len() - start,
{
    let ghost tv = tokens.deep_view();
    if start >= tokens.len() {
        return Err(ParseError::InvalidSyntax);
    }
    proof {
        assert(tv[start as int] == tokens@[start as int].deep_view());
    }
    match &tokens[start] {
        Token::Number(text) => Ok((Expr::Number(copy_chars(text)), start + 1)),
        Token::Ident(c) => Ok((Expr::Ident(*c), start + 1)),
        Token::Unary(op) => match parse(tokens, start + 1) {
            Ok((operand, j)) => Ok((Expr::UnOp { op: *op, operand: Box::new(operand) }, j)),
            Err(e) => Err(e),
        },
        Token::Operator(op) => match parse(tokens, start + 1) {
            Ok((left, j)) => match parse(tokens, j) {
                Ok((right, k)) => Ok(
                    (Expr::BinOp { op: *op, left: Box::new(left), right: Box::new(right) }, k),
                ),
                Err(e) => Err(e),
            },
            Err(e) => Err(e),
        },
        Token::Colon => Err(ParseError::InvalidSyntax),
        Token::SemiColon => Err(ParseError::InvalidSyntax),
    }
}

/// Whether the tokens of one statement contain a colon, which marks the
/// statement as a variable declaration.
pub open spec fn contains_colon(toks: Seq<TokenView>) -> bool {
    exists|i: int| 0 <= i < toks.len() && toks[i] == TokenView::Colon
}

/// What parsing the tokens of one statement yields.  A statement with a
/// colon must be a variable name, the colon, and the bound expression; any
/// other statement is a print expression.  Either way the expression must
/// consume the remaining tokens exactly.
pub open spec fn parse_statement_spec(buf: Seq<TokenView>) -> Result<StatementView, ParseError> {
    if contains_colon(buf) {
        if buf.len() >= 2 {
            match (buf[0], buf[1]) {
                (TokenView::Ident(c), TokenView::Colon) => match parse_expr_spec(buf, 2) {
                    Ok((e, j)) => if j == buf.len() {
                        Ok(StatementView::VariableDeclaration { ident: c, expr: e })
                    } else {
                        Err(ParseError::TrailingTokens)
                    },
                    Err(e) => Err(e),
                },
                _ => Err(ParseError::MalformedDeclaration),
            }
        } else {
            Err(ParseError::MalformedDeclaration)
        }
    } else {
        match parse_expr_spec(buf, 0) {
            Ok((e, j)) => if j == buf.len() {
                Ok(StatementView::PrintExpr(e))
            } else {
                Err(ParseError::TrailingTokens)
            },
            Err(e) => Err(e),
        }
    }
}

/// Law: a successfully parsed statement consumed its token buffer exactly
/// — its expression's tokens reach the end of the buffer, so nothing of a
/// recognized statement is left behind.
pub proof fn lemma_statement_consumes_all(buf: Seq<TokenView>)
    ensures
        parse_statement_spec(buf) matches Ok(st) ==> match st {
            StatementView::PrintExpr(e) => parse_expr_spec(buf, 0) == Ok::<_, ParseError>(
                (e, buf.len() as int),
            ),
            StatementView::VariableDeclaration { ident, expr } => parse_expr_spec(buf, 2)
                == Ok::<_, ParseError>((expr, buf.len() as int)),
        },
{
}

/// The model of an executable statement parse result.
pub open spec fn statement_result_view(r: Result<Statement, ParseError>) -> Result<
    StatementView,
    ParseError,
> {
    match r {
        Ok(st) => Ok(st.deep_view()),
        Err(e) => Err(e),
    }
}

/// Decides whether the buffer holds a colon.
fn find_colon(buf: &Vec<Token>) -> (r: bool)
    ensures
        r == contains_colon(buf.deep_view()),
{
    let ghost bv = buf.deep_view();
    let mut i: usize = 0;
    while i < buf.len()
        invariant
            i <= buf@.len(),
            bv == buf.deep_view(),
            forall|j: int| 0 <= j < i ==> bv[j] != TokenView::Colon,
        decreases buf@.len() - i,
    {
        proof {
            assert(bv[i as int] == buf@[i as int].deep_view());
        }
        match &buf[i] {
            Token::Colon => {
                return true;
            },
            _ => {},
        }
        i = i + 1;
    }
    false
}

/// Parses the tokens of one statement.
pub fn parse_statement(buf: &Vec<Token>) -> (r: Result<Statement, ParseError>)
    ensures
        statement_result_view(r) == parse_statement_spec(buf.deep_view()),
{
    let ghost bv = buf.deep_view();
    if find_colon(buf) {
        if buf.len() >= 2 {
            proof {
                assert(bv[0] == buf@[0].deep_view());
                assert(bv[1] == buf@[1].deep_view());
            }
            let ident: char = match &buf[0] {
                Token::Ident(c) => *c,
                _ => {
                    return Err(ParseError::MalformedDeclaration);
                },
            };
            match &buf[1] {
                Token::Colon => {},
                _ => {
                    return Err(ParseError::MalformedDeclaration);
                },
            }
            match parse(buf, 2) {
                Ok((e, j)) => if j == buf.len() {
                    Ok(Statement::VariableDeclaration { ident, expr: e })
                } else {
                    Err(ParseError::TrailingTokens)
                },
                Err(e) => Err(e),
            }
        } else {
            Err(ParseError::MalformedDeclaration)
        }
    } else {
        match parse(buf, 0) {
            Ok((e, j)) => if j == buf.len() {
                Ok(Statement::PrintExpr(e))
            } else {
                Err(ParseError::TrailingTokens)
            },
            Err(e) => Err(e),
        }
    }
}

/// The first position at or after `i` holding a semicolon, or the length
/// of the sequence when none occurs there.
pub open spec fn first_semicolon(toks: Seq<TokenView>, i: int) -> int
    decreases toks.len() - i
        when 0 <= i <= toks.len()
{
    if i >= toks.len() {
        toks.len() as int
    } else if toks[i] == TokenView::SemiColon {
        i
    } else {
        first_semicolon(toks, i + 1)
    }
}

/// `first_semicolon` stays within the sequence.
pub proof fn lemma_first_semicolon_bounds(toks: Seq<TokenView>, i: int)
    requires
        0 <= i <= toks.len(),
    ensures
        i <= first_semicolon(toks, i) <= toks.len(),
    decreases toks.len() - i,
{
    if i < toks.len() && toks[i] != TokenView::SemiColon {
        lemma_first_semicolon_bounds(toks, i + 1);
    }
}

/// What parsing a whole token sequence yields: the statements of each
/// semicolon-terminated stretch, in order.  Tokens after the last
/// semicolon belong to no terminated statement and are dropped.
pub open spec fn parse_program_spec(toks: Seq<TokenView>) -> Result<Seq<StatementView>, ParseError>
    decreases toks.len(),
    via parse_program_spec_decreases
{
    let k = first_semicolon(toks, 0);
    if k >= toks.len() {
        Ok(Seq::empty())
    } else {
        match parse_statement_spec(toks.subrange(0, k)) {
            Ok(st) => match parse_program_spec(toks.subrange(k + 1, toks.len() as int)) {
                Ok(rest) => Ok(seq![st] + rest),
                Err(e) => Err(e),
            },
            Err(e) => Err(e),
        }
    }
}

#[via_fn]
proof fn parse_program_spec_decreases(toks: Seq<TokenView>) {
    lemma_first_semicolon_bounds(toks, 0);
}

/// The model of an executable program parse result.
pub open spec fn program_result_view(r: Result<Program, ParseError>) -> Result<
    Seq<StatementView>,
    ParseError,
> {
    match r {
        Ok(p) => Ok(p.deep_view()),
        Err(e) => Err(e),
    }
}

/// Finds the first semicolon of the token sequence.
fn find_semicolon(tokens: &Vec<Token>) -> (k: usize)
    ensures
        k <= tokens@.len(),
        k as int == first_semicolon(tokens.deep_view(), 0),
{
    let ghost tv = tokens.deep_view();
    let mut i: usize = 0;
    while i < tokens.len()
        invariant
            i <= tokens@.len(),
            tv == tokens.deep_view(),
            first_semicolon(tv, 0) == first_semicolon(tv, i as int),
        decreases tokens@.len() - i,
    {
        proof {
            assert(tv[i as int] == tokens@[i as int].deep_view());
        }
        match &tokens[i] {
            Token::SemiColon => {
                proof {
                    assert(first_semicolon(tv, i as int) == i);
                }
                return i;
            },
            _ => {},
        }
        proof {
            assert(first_semicolon(tv, i as int) == first_semicolon(tv, i + 1));
        }
        i = i + 1;
    }
    tokens.len()
}

/// The statements already parsed, followed by whatever the rest of the
/// tokens parse to.
pub open spec fn prepend_statements(
    done: Seq<StatementView>,
    rest: Result<Seq<StatementView>, ParseError>,
) -> Result<Seq<StatementView>, ParseError> {
    match rest {
        Ok(s) => Ok(done + s),
        Err(e) => Err(e),
    }
}

/// Parses a token sequence into a program, consuming the tokens.
#[verifier::loop_isolation(false)]
pub fn parse_program(tokens: Vec<Token>) -> (r: Result<Program, ParseError>)
    ensures
        program_result_view(r) == parse_program_spec(tokens.deep_view()),
{
    let ghost orig = tokens.deep_view();
    let mut tokens = tokens;
    let mut statements: Vec<Statement> = Vec::new();
    proof {
        assert(statements.deep_view() =~= Seq::<StatementView>::empty());
        assert(prepend_statements(statements.deep_view(), parse_program_spec(tokens.deep_view()))
            == parse_program_spec(orig));
    }
    loop
        invariant
            parse_program_spec(orig) == prepend_statements(
                statements.deep_view(),
                parse_program_spec(tokens.deep_view()),
            ),
        decreases tokens@.len(),
    {
        let ghost prev = tokens@;
        let ghost pre = tokens.deep_view();
        let k = find_semicolon(&tokens);
        if k == tokens.len() {
            proof {
                assert(parse_program_spec(pre) == Ok::<_, ParseError>(Seq::<
                    StatementView,
                >::empty()));
                assert(statements.deep_view() + Seq::<StatementView>::empty()
                    =~= statements.deep_view());
            }
            return Ok(Program { statements });
        }
        let rest = tokens.split_off(k + 1);
        tokens.pop();
        proof {
            assert(tokens@ =~= prev.subrange(0, k as int));
            assert(rest@ =~= prev.subrange(k + 1, prev.len() as int));
            assert forall|m: int| 0 <= m < k implies tokens.deep_view()[m] == pre[m] by {
                assert(tokens.deep_view()[m] == tokens@[m].deep_view());
                assert(tokens@[m] == prev[m]);
            }
            assert(tokens.deep_view() =~= pre.subrange(0, k as int));
            assert forall|m: int| 0 <= m < rest@.len() implies rest.deep_view()[m] == pre.subrange(
                k + 1,
                pre.len() as int,
            )[m] by {
                assert(rest.deep_view()[m] == rest@[m].deep_view());
                assert(rest@[m] == prev[k + 1 + m]);
            }
            assert(rest.deep_view() =~= pre.subrange(k + 1, pre.len() as int));
        }
        let ghost done = statements.deep_view();
        match parse_statement(&tokens) {
            Ok(st) => {
                statements.push(st);
                proof {
                    assert(statements.deep_view() =~= done.push(st.deep_view()));
                    match parse_program_spec(pre.subrange(k + 1, pre.len() as int)) {
                        Ok(r2) => {
                            assert(done + (seq![st.deep_view()] + r2) =~= done.push(st.deep_view())
                                + r2);
                        },
                        Err(_) => {},
                    }
                }
                tokens = rest;
            },
            Err(e) => {
                proof {
                    assert(parse_program_spec(pre) == Err::<Seq<StatementView>, _>(e));
                }
                return Err(e);
            },
        }
    }
}

} // verus!

