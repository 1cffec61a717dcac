//! Evaluation: a tree-walking interpreter over a lexically scoped
//! environment.
//!
//! The evaluator is specified against a family of `se_` functions: a
//! mathematical big-step semantics over the views of the syntax tree and of
//! the scope arena. Each executable evaluation function is proved to change
//! the arena and to answer exactly as its mathematical counterpart says.
//!
//! The semantics carries a fuel bound on the nesting depth of function
//! applications, and answers the catch-all error when it runs out; the
//! executable evaluator starts with more fuel than any run on a real machine
//! can consume. Everything else is exact: a `return` wraps its value in the
//! `Return` sentinel, a block hands the sentinel on unchanged, and a
//! function application unwraps it, so a `return` ends exactly the enclosing
//! call.

pub mod environment;
pub mod object;

use vstd::prelude::*;
use crate::parser::ast::{
    Expression, Statement, Program, ExprView, StmtView, Prefix, Infix, clone_exprs, clone_stmt,
    exprs_view, stmts_view,
};
use crate::eval::environment::{Environment, ScopeView, s_lookup, opt_obj_matches, lemma_obj_wf_mono};
use crate::eval::object::{Object, ObjView, ObjectType, obj_wf, spec_truthy};
use crate::error::{MonkeyError, ErrView};

verus! {

broadcast use vstd::std_specs::vec::group_vec_axioms, vstd::seq::group_seq_axioms;

/// What the bang prefix operator makes of a value: boolean negation under
/// truthiness. What the minus prefix operator makes of one: integer
/// negation, wrapping on the smallest integer; on any other value, null.
pub open spec fn se_prefix_op(op: Prefix, v: ObjView) -> Result<ObjView, ErrView> {
    match op {
        Prefix::Bang => match v {
            ObjView::Bool(b) => Ok(ObjView::Bool(!b)),
            ObjView::Null => Ok(ObjView::Bool(true)),
            _ => Ok(ObjView::Bool(false)),
        },
        Prefix::Minus => match v {
            ObjView::Integer(n) => Ok(
                ObjView::Integer(
                    if n == i64::MIN {
                        i64::MIN
                    } else {
                        (-n) as i64
                    },
                ),
            ),
            _ => Ok(ObjView::Null),
        },
    }
}

/// What an infix operator makes of two values. Two integers compute or
/// compare; arithmetic wraps, and a division without a representable result
/// answers null. Two booleans only compare for equality; any other operator
/// on them is the unknown-operator error. An integer mixed with a boolean is
/// the type-mismatch error. Every other pairing is null.
pub open spec fn se_infix_op(op: Infix, l: ObjView, r: ObjView) -> Result<ObjView, ErrView> {
    match l {
        ObjView::Integer(a) => match r {
            ObjView::Integer(b) => match op {
                Infix::Eq => Ok(ObjView::Bool(a == b)),
                Infix::NotEq => Ok(ObjView::Bool(a != b)),
                Infix::LT => Ok(ObjView::Bool(a < b)),
                Infix::GT => Ok(ObjView::Bool(a > b)),
                Infix::Plus => Ok(ObjView::Integer(a.wrapping_add(b))),
                Infix::Minus => Ok(ObjView::Integer(a.wrapping_sub(b))),
                Infix::Asterisk => Ok(ObjView::Integer(a.wrapping_mul(b))),
                Infix::Slash => match a.checked_div(b) {
                    Some(q) => Ok(ObjView::Integer(q)),
                    None => Ok(ObjView::Null),
                },
            },
            ObjView::Bool(_) => Err(
                ErrView::TypeMismatch { operator: op, left: ObjectType::Integer, right: ObjectType::Bool },
            ),
            _ => Ok(ObjView::Null),
        },
        ObjView::Bool(a) => match r {
            ObjView::Bool(b) => match op {
                Infix::Eq => Ok(ObjView::Bool(a == b)),
                Infix::NotEq => Ok(ObjView::Bool(a != b)),
                _ => Err(
                    ErrView::UnknownOperator { operator: op, left: ObjectType::Bool, right: ObjectType::Bool },
                ),
            },
            ObjView::Integer(_) => Err(
                ErrView::TypeMismatch { operator: op, left: ObjectType::Bool, right: ObjectType::Integer },
            ),
            _ => Ok(ObjView::Null),
        },
        _ => Ok(ObjView::Null),
    }
}

/// The parameter bindings of an application: each identifier parameter bound
/// to its argument, in order, over the map built so far.
pub open spec fn bind_params(
    params: Seq<ExprView>,
    args: Seq<ObjView>,
    i: int,
    m: Map<Seq<char>, ObjView>,
) -> Map<Seq<char>, ObjView>
    decreases params.len() - i,
{
    if i < 0 || i >= params.len() || i >= args.len() {
        m
    } else {
        let m2 = match params[i] {
            ExprView::Identifier(name) => m.insert(name, args[i]),
            _ => m,
        };
        bind_params(params, args, i + 1, m2)
    }
}

/// One statement: its value, and how it changes the arena. A `return`
/// statement wraps its value in the sentinel; a block hands a sentinel on
/// unchanged; a `let` evaluates its value and binds it in the innermost
/// scope, itself answering null.
pub open spec fn se_stmt(s: StmtView, st: Seq<ScopeView>, cur: int, fuel: nat) -> (
    Seq<ScopeView>,
    Result<ObjView, ErrView>,
)
    decreases fuel, s, 0int, 1int,
{
    match s {
        StmtView::Expression(e) => se_expr(e, st, cur, fuel),
        StmtView::Block(ss) => se_block(ss, 0, ObjView::Null, st, cur, fuel),
        StmtView::Return(e) => {
            let (st2, r) = se_expr(e, st, cur, fuel);
            match r {
                Ok(v) => (st2, Ok(ObjView::Return(Box::new(v)))),
                Err(e2) => (st2, Err(e2)),
            }
        },
        StmtView::Let { identifier, value } => match identifier {
            ExprView::Identifier(name) => {
                let (st2, r) = se_expr(value, st, cur, fuel);
                match r {
                    Ok(v) => (
                        st2.update(
                            cur,
                            ScopeView { map: st2[cur].map.insert(name, v), parent: st2[cur].parent },
                        ),
                        Ok(ObjView::Null),
                    ),
                    Err(e2) => (st2, Err(e2)),
                }
            },
            _ => (st, Err(ErrView::Unknown)),
        },
    }
}

/// The statements of a block from index `i` on, `last` being the value so
/// far: values are evaluated in order; a `Return` sentinel stops the block
/// and is handed on unchanged.
pub open spec fn se_block(
    ss: Seq<StmtView>,
    i: int,
    last: ObjView,
    st: Seq<ScopeView>,
    cur: int,
    fuel: nat,
) -> (Seq<ScopeView>, Result<ObjView, ErrView>)
    decreases fuel, ss, ss.len() - i, 0int,
{
    if i < 0 || i >= ss.len() {
        (st, Ok(last))
    } else {
        let (st2, r) = se_stmt(ss[i], st, cur, fuel);
        match r {
            Ok(v) => if v is Return {
                (st2, Ok(v))
            } else {
                se_block(ss, i + 1, v, st2, cur, fuel)
            },
            Err(e) => (st2, Err(e)),
        }
    }
}

/// One expression: its value, and how it changes the arena. An identifier
/// looks its name up along the scope chain; an `if` takes its branch by the
/// condition's truthiness; a function literal captures a fresh scope
/// enclosed in the current one; a call evaluates its arguments left to
/// right, then the callee, then applies.
pub open spec fn se_expr(e: ExprView, st: Seq<ScopeView>, cur: int, fuel: nat) -> (
    Seq<ScopeView>,
    Result<ObjView, ErrView>,
)
    decreases fuel, e, 0int, 1int,
{
    match e {
        ExprView::Integer(n) => (st, Ok(ObjView::Integer(n))),
        ExprView::String(body) => (st, Ok(ObjView::String(body))),
        ExprView::Boolean(b) => (st, Ok(ObjView::Bool(b))),
        ExprView::Identifier(name) => match s_lookup(st, cur, name) {
            Some(v) => (st, Ok(v)),
            None => (st, Err(ErrView::IdentifierNotFound)),
        },
        ExprView::Prefix { operator, right } => {
            let (st2, r) = se_expr(*right, st, cur, fuel);
            match r {
                Ok(v) => (st2, se_prefix_op(operator, v)),
                Err(e2) => (st2, Err(e2)),
            }
        },
        ExprView::Infix { operator, left, right } => {
            let (st2, rl) = se_expr(*left, st, cur, fuel);
            match rl {
                Ok(lv) => {
                    let (st3, rr) = se_expr(*right, st2, cur, fuel);
                    match rr {
                        Ok(rv) => (st3, se_infix_op(operator, lv, rv)),
                        Err(e2) => (st3, Err(e2)),
                    }
                },
                Err(e2) => (st2, Err(e2)),
            }
        },
        ExprView::If { condition, consequence, alternative } => {
            let (st2, rc) = se_expr(*condition, st, cur, fuel);
            match rc {
                Ok(cv) => if spec_truthy(cv) {
                    se_stmt(*consequence, st2, cur, fuel)
                } else {
                    match alternative {
                        Some(alt) => se_stmt(*alt, st2, cur, fuel),
                        None => (st2, Ok(ObjView::Null)),
                    }
                },
                Err(e2) => (st2, Err(e2)),
            }
        },
        ExprView::Function { parameters, body } => (
            st.push(ScopeView { map: Map::empty(), parent: Some(cur) }),
            Ok(ObjView::Function { parameters, body: *body, env: st.len() as int }),
        ),
        ExprView::Call { function, arguments } => {
            let (st2, ra) = se_exprs(arguments, 0, Seq::empty(), st, cur, fuel);
            match ra {
                Ok(argvals) => {
                    let (st3, rf) = se_expr(*function, st2, cur, fuel);
                    match rf {
                        Ok(fv) => if fuel == 0 {
                            (st3, Err(ErrView::Unknown))
                        } else {
                            se_apply(fv, argvals, st3, (fuel - 1) as nat)
                        },
                        Err(e2) => (st3, Err(e2)),
                    }
                },
                Err(e2) => (st2, Err(e2)),
            }
        },
    }
}

/// The expressions of a list from index `i` on, evaluated left to right into
/// values; the first error aborts.
pub open spec fn se_exprs(
    es: Seq<ExprView>,
    i: int,
    acc: Seq<ObjView>,
    st: Seq<ScopeView>,
    cur: int,
    fuel: nat,
) -> (Seq<ScopeView>, Result<Seq<ObjView>, ErrView>)
    decreases fuel, es, es.len() - i, 0int,
{
    if i < 0 || i >= es.len() {
        (st, Ok(acc))
    } else {
        let (st2, r) = se_expr(es[i], st, cur, fuel);
        match r {
            Ok(v) => se_exprs(es, i + 1, acc.push(v), st2, cur, fuel),
            Err(e) => (st2, Err(e)),
        }
    }
}

/// A function application: the callee must be a function value taking
/// exactly as many arguments as given; a fresh scope enclosed in the
/// function's captured scope receives the parameter bindings, the body is
/// evaluated there, and a `Return` sentinel coming out of the body is
/// unwrapped: the `return` ends exactly this call.
pub open spec fn se_apply(f: ObjView, args: Seq<ObjView>, st: Seq<ScopeView>, fuel: nat) -> (
    Seq<ScopeView>,
    Result<ObjView, ErrView>,
)
    decreases fuel, f, 0int, 0int,
{
    match f {
        ObjView::Function { parameters, body, env } => {
            if parameters.len() != args.len() {
                (
                    st,
                    Err(
                        ErrView::IncorrectNumberOfArguments {
                            expected: parameters.len() as int,
                            actual: args.len() as int,
                        },
                    ),
                )
            } else if fuel == 0 {
                (st, Err(ErrView::Unknown))
            } else {
                let newidx = st.len() as int;
                let st2 = st.push(
                    ScopeView {
                        map: bind_params(parameters, args, 0, Map::empty()),
                        parent: Some(env),
                    },
                );
                let (st3, r) = se_stmt(body, st2, newidx, (fuel - 1) as nat);
                match r {
                    Ok(v) => match v {
                        ObjView::Return(b) => (st3, Ok(*b)),
                        _ => (st3, Ok(v)),
                    },
                    Err(e) => (st3, Err(e)),
                }
            }
        },
        _ => (st, Err(ErrView::Unknown)),
    }
}

/// The statements of a program from index `i` on, `last` being the value so
/// far: the program's value is the last statement's, but a `Return` sentinel
/// stops evaluation and the wrapped value is the program's.
pub open spec fn se_program_rec(
    ss: Seq<StmtView>,
    i: int,
    last: ObjView,
    st: Seq<ScopeView>,
    cur: int,
    fuel: nat,
) -> (Seq<ScopeView>, Result<ObjView, ErrView>)
    decreases fuel, ss, ss.len() - i, 2int,
{
    if i < 0 || i >= ss.len() {
        (st, Ok(last))
    } else {
        let (st2, r) = se_stmt(ss[i], st, cur, fuel);
        match r {
            Ok(v) => match v {
                ObjView::Return(b) => (st2, Ok(*b)),
                _ => se_program_rec(ss, i + 1, v, st2, cur, fuel),
            },
            Err(e) => (st2, Err(e)),
        }
    }
}

/// The fuel the executable evaluator starts with: a bound on the nesting
/// depth of function applications beyond what any run can reach.
pub open spec fn eval_fuel() -> nat {
    u64::MAX as nat
}

/// What evaluating a whole program from a given arena yields.
pub open spec fn se_program(ss: Seq<StmtView>, st: Seq<ScopeView>, cur: int) -> (
    Seq<ScopeView>,
    Result<ObjView, ErrView>,
) {
    se_program_rec(ss, 0, ObjView::Null, st, cur, eval_fuel())
}

/// The arena a fresh evaluator starts from: one empty root scope.
pub open spec fn init_store() -> Seq<ScopeView> {
    seq![ScopeView { map: Map::empty(), parent: None }]
}

/// Evaluation is a function of the program and the starting arena: repeated
/// evaluation from a fresh environment yields equal results.
pub proof fn lemma_evaluator_pure(
    ss: Seq<StmtView>,
    r1: (Seq<ScopeView>, Result<ObjView, ErrView>),
    r2: (Seq<ScopeView>, Result<ObjView, ErrView>),
)
    requires
        r1 == se_program(ss, init_store(), 0),
        r2 == se_program(ss, init_store(), 0),
    ensures
        r1 == r2,
{
}

/// A `return` passes through an enclosing block untouched: wrapping a
/// statement whose evaluation yields the `Return` sentinel in a further
/// block yields the same sentinel and the same arena, however deeply the
/// wrapping is repeated.
pub proof fn lemma_return_escapes_block(
    s: StmtView,
    st: Seq<ScopeView>,
    cur: int,
    fuel: nat,
    st2: Seq<ScopeView>,
    b: Box<ObjView>,
)
    requires
        se_stmt(s, st, cur, fuel) == (st2, Ok::<ObjView, ErrView>(ObjView::Return(b))),
    ensures
        se_stmt(StmtView::Block(seq![s]), st, cur, fuel) == (
            st2,
            Ok::<ObjView, ErrView>(ObjView::Return(b)),
        ),
{
    assert(seq![s][0] == s);
}

/// A `return` ends exactly the enclosing call: when the body of an applied
/// function evaluates to the `Return` sentinel, the application's value is
/// the wrapped value itself, not a sentinel, so the return reaches no
/// surrounding call and never escapes the interpreter.
pub proof fn lemma_return_stops_at_call(
    parameters: Seq<ExprView>,
    body: StmtView,
    env: int,
    args: Seq<ObjView>,
    st: Seq<ScopeView>,
    fuel: nat,
    st3: Seq<ScopeView>,
    b: Box<ObjView>,
)
    requires
        parameters.len() == args.len(),
        fuel >= 1,
        se_stmt(
            body,
            st.push(
                ScopeView { map: bind_params(parameters, args, 0, Map::empty()), parent: Some(env) },
            ),
            st.len() as int,
            (fuel - 1) as nat,
        ) == (st3, Ok::<ObjView, ErrView>(ObjView::Return(b))),
    ensures
        se_apply(ObjView::Function { parameters, body, env }, args, st, fuel) == (
            st3,
            Ok::<ObjView, ErrView>(*b),
        ),
{
}

/// The evaluator: it owns the scope arena and walks the syntax tree.
#[derive(Debug)]
pub struct Evaluator {
    /// The environment: all scopes, and the innermost one.
    pub env: Environment,
}

impl Evaluator {
    /// The evaluator's arena is well formed.
    pub open spec fn wf(self) -> bool {
        self.env.wf()
    }

    /// The arena's view.
    pub open spec fn store(self) -> Seq<ScopeView> {
        self.env.store()
    }

    /// The innermost scope's index.
    pub open spec fn cur(self) -> int {
        self.env.cur()
    }

    /// A fresh evaluator: one empty root scope.
    pub fn new() -> (r: Self)
        ensures
            r.wf(),
            r.store() =~= init_store(),
            r.cur() == 0,
    {
        Evaluator { env: Environment::new() }
    }

    /// An evaluator over the given environment.
    pub fn from_env(env: Environment) -> (r: Self)
        requires
            env.wf(),
        ensures
            r.wf(),
            r.store() == env.store(),
            r.cur() == env.cur(),
    {
        Evaluator { env }
    }

    /// Looks a name up in the environment, as `s_lookup` answers.
    pub fn get(&mut self, key: &str) -> (r: Option<Object>)
        requires
            old(self).wf(),
        ensures
            *final(self) == *old(self),
            opt_obj_matches(r, s_lookup(old(self).store(), old(self).cur(), key@)),
    {
        self.env.get(key)
    }

    /// Binds a name in the innermost scope and hands back the value it
    /// replaces there, if any.
    pub fn set(&mut self, key: String, value: Object) -> (r: Option<Object>)
        requires
            old(self).wf(),
            obj_wf(value@, old(self).store().len() as int),
        ensures
            final(self).wf(),
            final(self).cur() == old(self).cur(),
            final(self).store() =~= old(self).store().update(
                old(self).cur(),
                ScopeView {
                    map: old(self).store()[old(self).cur()].map.insert(key@, value@),
                    parent: old(self).store()[old(self).cur()].parent,
                },
            ),
            opt_obj_matches(
                r,
                if old(self).store()[old(self).cur()].map.dom().contains(key@) {
                    Some(old(self).store()[old(self).cur()].map[key@])
                } else {
                    None
                },
            ),
    {
        self.env.set(key, value)
    }

    /// Evaluates a program: the statements in order; a `return` stops
    /// evaluation and its value, unwrapped, is the program's value. The
    /// result and the new arena are exactly what the mathematical semantics
    /// `se_program` says for the old arena.
    #[verifier::loop_isolation(false)]
    pub fn evaluate(&mut self, program: &Program) -> (r: Result<Object, MonkeyError>)
        requires
            old(self).wf(),
        ensures
            final(self).wf(),
            final(self).cur() == old(self).cur(),
            ({
                let (st2, res) = se_program(program@, old(self).store(), old(self).cur());
                &&& final(self).store() == st2
                &&& match (r, res) {
                    (Ok(o), Ok(ov)) => o@ == ov && obj_wf(ov, final(self).store().len() as int),
                    (Err(e), Err(ev)) => e@ == ev,
                    _ => false,
                }
            }),
    {
        let ghost ss = program@;
        let ghost st0 = self.store();
        let ghost cur0 = self.cur();
        let mut result = Object::Null;
        let mut i: usize = 0;
        while i < program.statements.len()
            invariant
                self.wf(),
                self.cur() == cur0,
                i <= program.statements.len(),
                obj_wf(result@, self.store().len() as int),
                !(result@ is Return),
                se_program_rec(ss, i as int, result@, self.store(), cur0, eval_fuel())
                    == se_program_rec(ss, 0, ObjView::Null, st0, cur0, eval_fuel()),
            decreases program.statements.len() - i,
        {
            let ghost previ = i as int;
            let ghost prevst = self.store();
            result = self.eval_statement(&program.statements[i], u64::MAX)?;
            if let Object::Return(return_value) = result {
                proof {
                    assert(ss[previ] == program.statements@[previ]@);
                }
                return Ok(*return_value);
            }
            proof {
                assert(ss[previ] == program.statements@[previ]@);
            }
            i = i + 1;
        }
        Ok(result)
    }

    /// Evaluates one statement, as `se_stmt` says.
    fn eval_statement(&mut self, stmt: &Statement, fuel: u64) -> (r: Result<Object, MonkeyError>)
        requires
            old(self).wf(),
        ensures
            final(self).wf(),
            final(self).cur() == old(self).cur(),
            final(self).store().len() >= old(self).store().len(),
            ({
                let (st2, res) = se_stmt(stmt@, old(self).store(), old(self).cur(), fuel as nat);
                &&& final(self).store() == st2
                &&& match (r, res) {
                    (Ok(o), Ok(ov)) => o@ == ov && obj_wf(ov, final(self).store().len() as int),
                    (Err(e), Err(ev)) => e@ == ev,
                    _ => false,
                }
            }),
        decreases fuel, *stmt, 0int, 1int,
    {
        match stmt {
            Statement::Expression(expr) => self.eval_expression(expr, fuel),
            Statement::Block(stmts) => self.eval_block_statement(stmts, fuel),
            Statement::Return(expr) => {
                let obj = self.eval_expression(expr, fuel)?;
                Ok(Object::Return(Box::new(obj)))
            },
            Statement::Let { identifier, value } => {
                if let Expression::Identifier(ident) = identifier {
                    let val = self.eval_expression(value, fuel)?;
                    self.env.set(ident.clone(), val);
                    Ok(Object::Null)
                } else {
                    Err(MonkeyError::Unknown)
                }
            },
        }
    }

    /// Evaluates one expression, as `se_expr` says.
    #[verifier::rlimit(100)]
    fn eval_expression(&mut self, expr: &Expression, fuel: u64) -> (r: Result<Object, MonkeyError>)
        requires
            old(self).wf(),
        ensures
            final(self).wf(),
            final(self).cur() == old(self).cur(),
            final(self).store().len() >= old(self).store().len(),
            ({
                let (st2, res) = se_expr(expr@, old(self).store(), old(self).cur(), fuel as nat);
                &&& final(self).store() == st2
                &&& match (r, res) {
                    (Ok(o), Ok(ov)) => o@ == ov && obj_wf(ov, final(self).store().len() as int),
                    (Err(e), Err(ev)) => e@ == ev,
                    _ => false,
                }
            }),
        decreases fuel, *expr, 0int, 1int,
    {
        match expr {
            Expression::Integer(int_value) => Ok(Object::Integer(*int_value)),
            Expression::String(body) => Ok(Object::String(body.clone())),
            Expression::Boolean(b) => Ok(Object::Bool(*b)),
            Expression::Identifier(ident) => match self.env.get(ident.as_str()) {
                Some(val) => Ok(val),
                None => Err(MonkeyError::IdentifierNotFound),
            },
            Expression::Prefix { operator, right } => {
                let right_val = self.eval_expression(&**right, fuel)?;
                self.eval_prefix_expression(operator, right_val)
            },
            Expression::Infix { operator, left, right } => {
                let left_val = self.eval_expression(&**left, fuel)?;
                let right_val = self.eval_expression(&**right, fuel)?;
                self.eval_infix_expression(operator, left_val, right_val)
            },
            Expression::If { condition, consequence, alternative } => {
                let cond = self.eval_expression(&**condition, fuel)?;
                if cond.is_truthy() {
                    self.eval_statement(&**consequence, fuel)
                } else {
                    match alternative {
                        Some(alt) => self.eval_statement(&**alt, fuel),
                        None => Ok(Object::Null),
                    }
                }
            },
            Expression::Function { parameters, body } => {
                let cur = self.env.current;
                let idx = self.env.push_scope(cur);
                Ok(
                    Object::Function {
                        parameters: clone_exprs(parameters),
                        body: clone_stmt(&**body),
                        env: idx,
                    },
                )
            },
            Expression::Call { function, arguments } => {
                let args = self.eval_expressions(arguments, fuel)?;
                let ghost stargs = self.store();
                let function_val = self.eval_expression(&**function, fuel)?;
                proof {
                    assert forall|k: int| 0 <= k < args.deep_view().len() implies obj_wf(
                        #[trigger] args.deep_view()[k],
                        self.store().len() as int,
                    ) by {
                        lemma_obj_wf_mono(
                            args.deep_view()[k],
                            stargs.len() as int,
                            self.store().len() as int,
                        );
                    }
                }
                if fuel == 0 {
                    return Err(MonkeyError::Unknown);
                }
                self.apply_function(function_val, args, fuel - 1)
            },
        }
    }

    /// Evaluates a list of expressions left to right, as `se_exprs` says.
    #[verifier::loop_isolation(false)]
    fn eval_expressions(&mut self, exprs: &Vec<Expression>, fuel: u64) -> (r: Result<
        Vec<Object>,
        MonkeyError,
    >)
        requires
            old(self).wf(),
        ensures
            final(self).wf(),
            final(self).cur() == old(self).cur(),
            final(self).store().len() >= old(self).store().len(),
            ({
                let (st2, res) = se_exprs(
                    exprs_view(exprs@),
                    0,
                    Seq::empty(),
                    old(self).store(),
                    old(self).cur(),
                    fuel as nat,
                );
                &&& final(self).store() == st2
                &&& match (r, res) {
                    (Ok(v), Ok(vs)) => v.deep_view() == vs && (forall|k: int|
                        0 <= k < vs.len() ==> obj_wf(
                            #[trigger] vs[k],
                            final(self).store().len() as int,
                        )),
                    (Err(e), Err(ev)) => e@ == ev,
                    _ => false,
                }
            }),
        decreases fuel, *exprs, 0int, 0int,
    {
        let ghost es = exprs_view(exprs@);
        let ghost st0 = self.store();
        let ghost cur0 = self.cur();
        let mut result: Vec<Object> = Vec::new();
        let mut i: usize = 0;
        proof {
            assert(result.deep_view() =~= Seq::<ObjView>::empty());
        }
        while i < exprs.len()
            invariant
                self.wf(),
                self.cur() == cur0,
                self.store().len() >= st0.len(),
                i <= exprs.len(),
                result.deep_view().len() == i as int,
                forall|k: int|
                    0 <= k < i as int ==> obj_wf(
                        #[trigger] result.deep_view()[k],
                        self.store().len() as int,
                    ),
                se_exprs(es, i as int, result.deep_view(), self.store(), cur0, fuel as nat)
                    == se_exprs(es, 0, Seq::empty(), st0, cur0, fuel as nat),
            decreases exprs.len() - i,
        {
            let ghost previ = i as int;
            let ghost prevacc = result.deep_view();
            let ghost prevst = self.store();
            let v = self.eval_expression(&exprs[i], fuel)?;
            result.push(v);
            proof {
                assert(es[previ] == exprs@[previ]@);
                assert(result.deep_view() =~= prevacc.push(result.deep_view()[previ]));
                assert forall|k: int| 0 <= k < result.deep_view().len() implies obj_wf(
                    #[trigger] result.deep_view()[k],
                    self.store().len() as int,
                ) by {
                    if k < previ {
                        assert(result.deep_view()[k] == prevacc[k]);
                        assert(obj_wf(prevacc[k], prevst.len() as int));
                        lemma_obj_wf_mono(prevacc[k], prevst.len() as int, self.store().len() as int);
                    }
                }
            }
            i = i + 1;
        }
        Ok(result)
    }

    /// Applies a function value to its arguments, as `se_apply` says: a
    /// fresh scope enclosed in the captured one receives the parameter
    /// bindings, the body runs there, and a `Return` sentinel is unwrapped.
    #[verifier::loop_isolation(false)]
    #[verifier::rlimit(100)]
    fn apply_function(&mut self, function: Object, args: Vec<Object>, fuel: u64) -> (r: Result<
        Object,
        MonkeyError,
    >)
        requires
            old(self).wf(),
            obj_wf(function@, old(self).store().len() as int),
            forall|k: int|
                0 <= k < args.deep_view().len() ==> obj_wf(
                    #[trigger] args.deep_view()[k],
                    old(self).store().len() as int,
                ),
        ensures
            final(self).wf(),
            final(self).cur() == old(self).cur(),
            final(self).store().len() >= old(self).store().len(),
            ({
                let (st2, res) = se_apply(
                    function@,
                    args.deep_view(),
                    old(self).store(),
                    fuel as nat,
                );
                &&& final(self).store() == st2
                &&& match (r, res) {
                    (Ok(o), Ok(ov)) => o@ == ov && obj_wf(ov, final(self).store().len() as int),
                    (Err(e), Err(ev)) => e@ == ev,
                    _ => false,
                }
            }),
        decreases fuel, function, 0int, 0int,
    {
        if let Object::Function { parameters, body, env } = function {
            if parameters.len() != args.len() {
                return Err(
                    MonkeyError::IncorrectNumberOfArguments {
                        expected: parameters.len(),
                        actual: args.len(),
                    },
                );
            }
            if fuel == 0 {
                return Err(MonkeyError::Unknown);
            }
            let saved = self.env.current;
            let idx = self.env.push_scope(env);
            self.env.enter_scope(idx);
            let ghost pv = exprs_view(parameters@);
            let ghost av = args.deep_view();
            let ghost st1 = self.store();
            let mut i: usize = 0;
            while i < parameters.len()
                invariant
                    self.wf(),
                    self.cur() == idx as int,
                    idx as int == st1.len() - 1,
                    self.store().len() == st1.len(),
                    i <= parameters.len(),
                    bind_params(pv, av, i as int, self.store()[idx as int].map) == bind_params(
                        pv,
                        av,
                        0,
                        Map::empty(),
                    ),
                    self.store()[idx as int].parent == Some(env as int),
                    forall|j: int|
                        0 <= j < st1.len() - 1 ==> #[trigger] self.store()[j] == st1[j],
                decreases parameters.len() - i,
            {
                let ghost prevmap = self.store()[idx as int].map;
                if let Expression::Identifier(name) = &parameters[i] {
                    proof {
                        assert(av[i as int] == args@[i as int]@);
                        lemma_obj_wf_mono(
                            av[i as int],
                            old(self).store().len() as int,
                            self.store().len() as int,
                        );
                    }
                    self.env.set(name.clone(), args[i].clone());
                    proof {
                        assert(pv[i as int] == parameters@[i as int]@);
                        assert(av[i as int] == args.deep_view()[i as int]);
                    }
                } else {
                    proof {
                        assert(pv[i as int] == parameters@[i as int]@);
                    }
                }
                i = i + 1;
            }
            proof {
                let bound = ScopeView {
                    map: bind_params(pv, av, 0, Map::empty()),
                    parent: Some(env as int),
                };
                assert(self.store() =~= st1.update(idx as int, bound));
                assert(st1.update(idx as int, bound) =~= old(self).store().push(bound));
                assert(function@ == ObjView::Function { parameters: pv, body: body@, env: env as int });
            }
            let result = self.eval_statement(&body, fuel - 1);
            self.env.enter_scope(saved);
            match result {
                Ok(obj) => match obj {
                    Object::Return(inner) => Ok(*inner),
                    other => Ok(other),
                },
                Err(e) => Err(e),
            }
        } else {
            Err(MonkeyError::Unknown)
        }
    }

    /// Evaluates the statements of a block, as `se_block` says: a `Return`
    /// sentinel stops the block and is handed on unchanged.
    #[verifier::loop_isolation(false)]
    fn eval_block_statement(&mut self, stmts: &Vec<Statement>, fuel: u64) -> (r: Result<
        Object,
        MonkeyError,
    >)
        requires
            old(self).wf(),
        ensures
            final(self).wf(),
            final(self).cur() == old(self).cur(),
            final(self).store().len() >= old(self).store().len(),
            ({
                let (st2, res) = se_block(
                    stmts_view(stmts@),
                    0,
                    ObjView::Null,
                    old(self).store(),
                    old(self).cur(),
                    fuel as nat,
                );
                &&& final(self).store() == st2
                &&& match (r, res) {
                    (Ok(o), Ok(ov)) => o@ == ov && obj_wf(ov, final(self).store().len() as int),
                    (Err(e), Err(ev)) => e@ == ev,
                    _ => false,
                }
            }),
        decreases fuel, *stmts, 0int, 0int,
    {
        let ghost ss = stmts_view(stmts@);
        let ghost st0 = self.store();
        let ghost cur0 = self.cur();
        let mut result = Object::Null;
        let mut i: usize = 0;
        while i < stmts.len()
            invariant
                self.wf(),
                self.cur() == cur0,
                self.store().len() >= st0.len(),
                i <= stmts.len(),
                obj_wf(result@, self.store().len() as int),
                !(result@ is Return),
                se_block(ss, i as int, result@, self.store(), cur0, fuel as nat) == se_block(
                    ss,
                    0,
                    ObjView::Null,
                    st0,
                    cur0,
                    fuel as nat,
                ),
            decreases stmts.len() - i,
        {
            let ghost previ = i as int;
            result = self.eval_statement(&stmts[i], fuel)?;
            proof {
                assert(ss[previ] == stmts@[previ]@);
            }
            if let Object::Return(_) = &result {
                return Ok(result);
            }
            i = i + 1;
        }
        Ok(result)
    }

    /// Applies a prefix operator to a value, as `se_prefix_op` says.
    fn eval_prefix_expression(&mut self, operator: &Prefix, right: Object) -> (r: Result<
        Object,
        MonkeyError,
    >)
        ensures
            *final(self) == *old(self),
            match (r, se_prefix_op(*operator, right@)) {
                (Ok(o), Ok(ov)) => o@ == ov && obj_wf(ov, 0),
                (Err(e), Err(ev)) => e@ == ev,
                _ => false,
            },
    {
        match operator {
            Prefix::Bang => match right {
                Object::Bool(value) => Ok(Object::Bool(!value)),
                Object::Null => Ok(Object::Bool(true)),
                _ => Ok(Object::Bool(false)),
            },
            Prefix::Minus => match right {
                Object::Integer(n) => {
                    if n == i64::MIN {
                        Ok(Object::Integer(i64::MIN))
                    } else {
                        Ok(Object::Integer(-n))
                    }
                },
                _ => Ok(Object::Null),
            },
        }
    }

    /// Applies an infix operator to two values, as `se_infix_op` says.
    fn eval_infix_expression(&mut self, operator: &Infix, left: Object, right: Object) -> (r:
        Result<Object, MonkeyError>)
        ensures
            *final(self) == *old(self),
            match (r, se_infix_op(*operator, left@, right@)) {
                (Ok(o), Ok(ov)) => o@ == ov && obj_wf(ov, 0),
                (Err(e), Err(ev)) => e@ == ev,
                _ => false,
            },
    {
        match left {
            Object::Integer(a) => match right {
                Object::Integer(b) => match operator {
                    Infix::Eq => Ok(Object::Bool(a == b)),
                    Infix::NotEq => Ok(Object::Bool(a != b)),
                    Infix::LT => Ok(Object::Bool(a < b)),
                    Infix::GT => Ok(Object::Bool(a > b)),
                    Infix::Plus => Ok(Object::Integer(a.wrapping_add(b))),
                    Infix::Minus => Ok(Object::Integer(a.wrapping_sub(b))),
                    Infix::Asterisk => Ok(Object::Integer(a.wrapping_mul(b))),
                    Infix::Slash => match a.checked_div(b) {
                        Some(q) => Ok(Object::Integer(q)),
                        None => Ok(Object::Null),
                    },
                },
                Object::Bool(_) => Err(
                    MonkeyError::TypeMismatch {
                        operator: *operator,
                        left: ObjectType::Integer,
                        right: ObjectType::Bool,
                    },
                ),
                _ => Ok(Object::Null),
            },
            Object::Bool(a) => match right {
                Object::Bool(b) => match operator {
                    Infix::Eq => Ok(Object::Bool(a == b)),
                    Infix::NotEq => Ok(Object::Bool(a != b)),
                    _ => Err(
                        MonkeyError::UnknownOperator {
                            operator: *operator,
                            left: ObjectType::Bool,
                            right: ObjectType::Bool,
                        },
                    ),
                },
                Object::Integer(_) => Err(
                    MonkeyError::TypeMismatch {
                        operator: *operator,
                        left: ObjectType::Bool,
                        right: ObjectType::Integer,
                    },
                ),
                _ => Ok(Object::Null),
            },
            _ => Ok(Object::Null),
        }
    }
}

impl Default for Evaluator {
    /// A fresh evaluator.
    fn default() -> (r: Self)
        ensures
            r.wf(),
            r.store() =~= init_store(),
            r.cur() == 0,
    {
        Evaluator::new()
    }
}

} // verus!
