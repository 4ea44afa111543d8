//! The evaluator: from a program to the values it prints.
//!
//! Statements run in source order against a single environment.  A
//! variable declaration stores its expression unevaluated, overwriting any
//! prior binding; a print expression is resolved against the environment
//! as it stands at that moment.  Variable references are lazy: each
//! reference re-resolves the stored expression, so a binding made after a
//! declaration but before a reference is the one that counts.
//!
//! Resolution replaces every variable reference by the expression it is
//! bound to, recursively, and yields a closed operation tree over numeric
//! literals — the value of a print statement up to the floating-point
//! arithmetic, which the library leaves to its caller.  Reference chains
//! through the environment have no a-priori bound (a binding may refer to
//! itself), so resolution carries a depth allowance and fails once a chain
//! exhausts it; expressions a terminating run can produce stay far below
//! the allowance.

use crate::lexer::Operator;
use crate::lexer::UnaryOperator;
use crate::literal::copy_chars;
use crate::parser::Expr;
use crate::parser::ExprView;
use crate::parser::Program;
use crate::parser::Statement;
use crate::parser::StatementView;
use vstd::prelude::*;

verus! {

/// Why evaluation failed.
#[derive(Debug, Clone, Copy, PartialEq, Eq)]
pub enum EvalError {
    /// A variable was referenced with no binding in the environment.
    UndefinedVariable(char),
    /// A chain of variable references exhausted the depth allowance.
    RecursionLimit,
}

/// A resolved value: an expression with every variable reference replaced
/// by the expression it was bound to.  Folding the tree with
/// double-precision arithmetic yields the number a print statement emits.
#[derive(Debug, PartialEq)]
pub enum Value {
    /// A numeric literal, carried as the text it was written with.
    Number(Vec<char>),
    /// A binary application.
    BinOp { op: Operator, left: Box<Value>, right: Box<Value> },
    /// A unary application.
    UnOp { op: UnaryOperator, operand: Box<Value> },
}

/// The mathematical model of a resolved value.
pub enum ValueView {
    Number(Seq<char>),
    BinOp { op: Operator, left: Box<ValueView>, right: Box<ValueView> },
    UnOp { op: UnaryOperator, operand: Box<ValueView> },
}

/// The model of a resolved value tree.
pub open spec fn value_view(v: Value) -> ValueView
    decreases v,
{
    match v {
        Value::Number(text) => ValueView::Number(text@),
        Value::BinOp { op, left, right } => ValueView::BinOp {
            op,
            left: Box::new(value_view(*left)),
            right: Box::new(value_view(*right)),
        },
        Value::UnOp { op, operand } => ValueView::UnOp {
            op,
            operand: Box::new(value_view(*operand)),
        },
    }
}

impl DeepView for Value {
    type V = ValueView;

    open spec fn deep_view(&self) -> ValueView {
        value_view(*self)
    }
}

/// The environment: the variable bindings made so far.  Bindings are kept
/// in the order they were made, and the latest binding for a name wins,
/// so the model is the map each name leads to through its last entry.
pub struct Environment {
    entries: Vec<(char, Expr)>,
}

/// The map an entry list denotes: each entry inserted in order, so a later
/// entry for the same name overwrites an earlier one.
pub open spec fn env_map(entries: Seq<(char, ExprView)>) -> Map<char, ExprView>
    decreases entries.len(),
{
    if entries.len() == 0 {
        Map::empty()
    } else {
        env_map(entries.drop_last()).insert(entries.last().0, entries.last().1)
    }
}

impl View for Environment {
    type V = Map<char, ExprView>;

    closed spec fn view(&self) -> Map<char, ExprView> {
        env_map(self.entries.deep_view())
    }
}

/// An entry whose name does not recur later in the list decides what the
/// map holds for that name.
proof fn lemma_env_map_found(s: Seq<(char, ExprView)>, c: char, i: int)
    requires
        0 <= i < s.len(),
        s[i].0 == c,
        forall|j: int| i < j < s.len() ==> s[j].0 != c,
    ensures
        env_map(s).contains_key(c),
        env_map(s)[c] == s[i].1,
    decreases s.len(),
{
    if i < s.len() - 1 {
        lemma_env_map_found(s.drop_last(), c, i);
    }
}

/// A name on no entry is not in the map.
proof fn lemma_env_map_absent(s: Seq<(char, ExprView)>, c: char)
    requires
        forall|j: int| 0 <= j < s.len() ==> s[j].0 != c,
    ensures
        !env_map(s).contains_key(c),
    decreases s.len(),
{
    if s.len() > 0 {
        lemma_env_map_absent(s.drop_last(), c);
    }
}

impl Environment {
    /// The empty environment, holding no binding.
    pub fn new() -> (r: Environment)
        ensures
            r@ == Map::<char, ExprView>::empty(),
    {
        let entries: Vec<(char, Expr)> = Vec::new();
        proof {
            assert(entries.deep_view() =~= Seq::<(char, ExprView)>::empty());
        }
        Environment { entries }
    }

    /// Binds `expr` to `ident`, overwriting any prior binding.
    pub fn insert(&mut self, ident: char, expr: Expr)
        ensures
            final(self)@ == old(self)@.insert(ident, expr.deep_view()),
    {
        let ghost pre = self.entries.deep_view();
        let ghost ev = expr.deep_view();
        self.entries.push((ident, expr));
        proof {
            assert(self.entries.deep_view() =~= pre.push((ident, ev)));
            assert(self.entries.deep_view().drop_last() =~= pre);
        }
    }

    /// Looks `ident` up: the expression bound to it, if any.
    pub fn lookup(&self, ident: char) -> (r: Option<&Expr>)
        ensures
            match r {
                Some(e) => self@.contains_key(ident) && e.deep_view() == self@[ident],
                None => !self@.contains_key(ident),
            },
    {
        let ghost s = self.entries.deep_view();
        let mut i: usize = self.entries.len();
        while i > 0
            invariant
                i <= self.entries@.len(),
                s == self.entries.deep_view(),
                forall|j: int| i <= j < s.len() ==> s[j].0 != ident,
            decreases i,
        {
            i = i - 1;
            proof {
                assert(s[i as int] == self.entries@[i as int].deep_view());
            }
            let entry = &self.entries[i];
            if entry.0 == ident {
                proof {
                    lemma_env_map_found(s, ident, i as int);
                }
                return Some(&entry.1);
            }
        }
        proof {
            lemma_env_map_absent(s, ident);
        }
        None
    }
}

/// What resolving an expression against an environment yields: the closed
/// value tree, or the failure.  Literals stand for themselves; a variable
/// reference resolves, lazily, whatever expression is bound at that
/// moment, spending one unit of the depth allowance `fuel`; an application
/// resolves its operands left to right, so the leftmost failure is the one
/// reported.
pub open spec fn resolve_spec(e: ExprView, env: Map<char, ExprView>, fuel: nat) -> Result<
    ValueView,
    EvalError,
>
    decreases fuel, e,
{
    match e {
        ExprView::Number(text) => Ok(ValueView::Number(text)),
        ExprView::Ident(c) => {
            if !env.contains_key(c) {
                Err(EvalError::UndefinedVariable(c))
            } else if fuel == 0 {
                Err(EvalError::RecursionLimit)
            } else {
                resolve_spec(env[c], env, (fuel - 1) as nat)
            }
        },
        ExprView::BinOp { op, left, right } => match resolve_spec(*left, env, fuel) {
            Ok(l) => match resolve_spec(*right, env, fuel) {
                Ok(r) => Ok(ValueView::BinOp { op, left: Box::new(l), right: Box::new(r) }),
                Err(er) => Err(er),
            },
            Err(er) => Err(er),
        },
        ExprView::UnOp { op, operand } => match resolve_spec(*operand, env, fuel) {
            Ok(v) => Ok(ValueView::UnOp { op, operand: Box::new(v) }),
            Err(er) => Err(er),
        },
    }
}

/// The model of an executable evaluation result.
pub open spec fn value_result_view(r: Result<Value, EvalError>) -> Result<ValueView, EvalError> {
    match r {
        Ok(v) => Ok(v.deep_view()),
        Err(e) => Err(e),
    }
}

/// Evaluates an expression against the environment: the resolved value
/// tree, or the failure.  `fuel` bounds the depth of reference chains
/// through the environment.
pub fn eval_expr(expr: &Expr, env: &Environment, fuel: u64) -> (r: Result<Value, EvalError>)
    ensures
        value_result_view(r) == resolve_spec(expr.deep_view(), env@, fuel as nat),
    decreases fuel, expr,
{
    match expr {
        Expr::Number(text) => Ok(Value::Number(copy_chars(text))),
        Expr::Ident(c) => match env.lookup(*c) {
            None => Err(EvalError::UndefinedVariable(*c)),
            Some(bound) => {
                if fuel == 0 {
                    Err(EvalError::RecursionLimit)
                } else {
                    eval_expr(bound, env, fuel - 1)
                }
            },
        },
        Expr::BinOp { op, left, right } => match eval_expr(left, env, fuel) {
            Ok(l) => match eval_expr(right, env, fuel) {
                Ok(r) => Ok(Value::BinOp { op: *op, left: Box::new(l), right: Box::new(r) }),
                Err(er) => Err(er),
            },
            Err(er) => Err(er),
        },
        Expr::UnOp { op, operand } => match eval_expr(operand, env, fuel) {
            Ok(v) => Ok(Value::UnOp { op: *op, operand: Box::new(v) }),
            Err(er) => Err(er),
        },
    }
}

/// The depth allowance for chains of variable references during one
/// resolution.
pub const RESOLUTION_DEPTH_LIMIT: u64 = 4096;

/// What running statements against an environment yields: the resolved
/// value of each print statement up to the first failure, and the failure
/// if one occurred.  A failing statement ends the run; values resolved
/// before it stand.
pub open spec fn run_spec(stmts: Seq<StatementView>, env: Map<char, ExprView>, fuel: nat) -> (Seq<
    ValueView,
>, Option<EvalError>)
    decreases stmts.len(),
{
    if stmts.len() == 0 {
        (Seq::empty(), None)
    } else {
        match stmts[0] {
            StatementView::VariableDeclaration { ident, expr } => run_spec(
                stmts.drop_first(),
                env.insert(ident, expr),
                fuel,
            ),
            StatementView::PrintExpr(e) => match resolve_spec(e, env, fuel) {
                Ok(v) => {
                    let rest = run_spec(stmts.drop_first(), env, fuel);
                    (seq![v] + rest.0, rest.1)
                },
                Err(er) => (Seq::empty(), Some(er)),
            },
        }
    }
}

/// What running a program produced: the resolved value of each print
/// statement, in order, and the failure that ended the run early, if any.
#[derive(Debug, PartialEq)]
pub struct RunResult {
    pub outputs: Vec<Value>,
    pub error: Option<EvalError>,
}

/// Runs a program from an empty environment.
#[verifier::loop_isolation(false)]
pub fn eval_program(program: Program) -> (r: RunResult)
    ensures
        (r.outputs.deep_view(), r.error) == run_spec(
            program.deep_view(),
            Map::empty(),
            RESOLUTION_DEPTH_LIMIT as nat,
        ),
{
    let ghost orig = program.deep_view();
    let mut stmts = program.statements;
    let mut env = Environment::new();
    let mut outputs: Vec<Value> = Vec::new();
    proof {
        assert(outputs.deep_view() =~= Seq::<ValueView>::empty());
    }
    while stmts.len() > 0
        invariant
            run_spec(orig, Map::empty(), RESOLUTION_DEPTH_LIMIT as nat) == {
                let rest = run_spec(stmts.deep_view(), env@, RESOLUTION_DEPTH_LIMIT as nat);
                (outputs.deep_view() + rest.0, rest.1)
            },
        decreases stmts@.len(),
    {
        let ghost pre = stmts.deep_view();
        let st = stmts.remove(0);
        proof {
            assert(st.deep_view() == pre[0]);
            assert forall|m: int| 0 <= m < stmts@.len() implies stmts.deep_view()[m]
                == pre.drop_first()[m] by {
                assert(stmts.deep_view()[m] == stmts@[m].deep_view());
            }
            assert(stmts.deep_view() =~= pre.drop_first());
        }
        match st {
            Statement::VariableDeclaration { ident, expr } => {
                env.insert(ident, expr);
            },
            Statement::PrintExpr(e) => {
                match eval_expr(&e, &env, RESOLUTION_DEPTH_LIMIT) {
                    Ok(v) => {
                        let ghost done = outputs.deep_view();
                        outputs.push(v);
                        proof {
                            assert(outputs.deep_view() =~= done.push(v.deep_view()));
                            let rest = run_spec(
                                stmts.deep_view(),
                                env@,
                                RESOLUTION_DEPTH_LIMIT as nat,
                            );
                            assert(done + (seq![v.deep_view()] + rest.0) =~= done.push(
                                v.deep_view(),
                            ) + rest.0);
                        }
                    },
                    Err(er) => {
                        return RunResult { outputs, error: Some(er) };
                    },
                }
            },
        }
    }
    proof {
        assert(outputs.deep_view() + Seq::<ValueView>::empty() =~= outputs.deep_view());
    }
    RunResult { outputs, error: None }
}

/// Law: a variable reference is lazy — it resolves the expression bound at
/// the moment of reference, against the environment as it stands then,
/// spending one unit of the depth allowance.
pub proof fn lemma_lazy_reference(c: char, env: Map<char, ExprView>, fuel: nat)
    requires
        env.contains_key(c),
        fuel > 0,
    ensures
        resolve_spec(ExprView::Ident(c), env, fuel) == resolve_spec(
            env[c],
            env,
            (fuel - 1) as nat,
        ),
{
}

/// Law: referencing a name with no binding fails the resolution, naming
/// the variable.
pub proof fn lemma_undefined_variable(c: char, env: Map<char, ExprView>, fuel: nat)
    requires
        !env.contains_key(c),
    ensures
        resolve_spec(ExprView::Ident(c), env, fuel) == Err::<ValueView, _>(
            EvalError::UndefinedVariable(c),
        ),
{
}

/// Law: the latest declaration wins — declaring a name twice in a row runs
/// on exactly as declaring it once with the second expression.
pub proof fn lemma_redeclaration_overwrites(
    ident: char,
    e1: ExprView,
    e2: ExprView,
    rest: Seq<StatementView>,
    env: Map<char, ExprView>,
    fuel: nat,
)
    ensures
        run_spec(
            seq![
                StatementView::VariableDeclaration { ident, expr: e1 },
                StatementView::VariableDeclaration { ident, expr: e2 },
            ] + rest,
            env,
            fuel,
        ) == run_spec(rest, env.insert(ident, e2), fuel),
{
    let two = seq![
        StatementView::VariableDeclaration { ident, expr: e1 },
        StatementView::VariableDeclaration { ident, expr: e2 },
    ];
    let stmts = two + rest;
    assert(stmts[0] == two[0]);
    assert(stmts.drop_first()[0] == two[1]);
    assert(stmts.drop_first().drop_first() =~= rest);
    assert(env.insert(ident, e1).insert(ident, e2) =~= env.insert(ident, e2));
    assert(run_spec(stmts, env, fuel) == run_spec(
        stmts.drop_first(),
        env.insert(ident, e1),
        fuel,
    ));
    assert(run_spec(stmts.drop_first(), env.insert(ident, e1), fuel) == run_spec(
        stmts.drop_first().drop_first(),
        env.insert(ident, e1).insert(ident, e2),
        fuel,
    ));
}

/// Law: a failing statement ends the run — statements after it neither run
/// nor print, so appending more statements to a failing program changes
/// neither its outputs nor its failure.
pub proof fn lemma_error_stops_run(
    stmts: Seq<StatementView>,
    more: Seq<StatementView>,
    env: Map<char, ExprView>,
    fuel: nat,
)
    requires
        run_spec(stmts, env, fuel).1 is Some,
    ensures
        run_spec(stmts + more, env, fuel) == run_spec(stmts, env, fuel),
    decreases stmts.len(),
{
    if stmts.len() == 0 {
        assert(run_spec(stmts, env, fuel).1 is None);
    } else {
        let whole = stmts + more;
        assert(whole[0] == stmts[0]);
        assert(whole.drop_first() =~= stmts.drop_first() + more);
        match stmts[0] {
            StatementView::VariableDeclaration { ident, expr } => {
                lemma_error_stops_run(stmts.drop_first(), more, env.insert(ident, expr), fuel);
            },
            StatementView::PrintExpr(e) => {
                match resolve_spec(e, env, fuel) {
                    Ok(v) => {
                        lemma_error_stops_run(stmts.drop_first(), more, env, fuel);
                    },
                    Err(_) => {},
                }
            },
        }
    }
}

} // verus!
