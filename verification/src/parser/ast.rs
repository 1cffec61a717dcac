//! The abstract syntax tree and its mathematical view.

use vstd::prelude::*;
use vstd::string::StringExecFns;
use crate::text::{i64_dec, i64_dec_string};

verus! {

broadcast use vstd::std_specs::vec::group_vec_axioms, vstd::seq::group_seq_axioms;

/// Binding strength of an operator position, lowest to highest.
#[derive(Debug, PartialEq, Clone, Eq, Hash, Copy, Structural)]
pub enum Precedence {
    Lowest,
    /// `==` or `!=`
    Equals,
    /// `<` or `>`
    LessGreater,
    /// `+` or `-`
    Sum,
    /// `*` or `/`
    Product,
    /// prefix `!` or `-`
    Prefix,
    /// a call's `(`
    Call,
}

/// Numeric rank of a precedence level; the total order the parser climbs.
pub open spec fn prec_rank(p: Precedence) -> int {
    match p {
        Precedence::Lowest => 0,
        Precedence::Equals => 1,
        Precedence::LessGreater => 2,
        Precedence::Sum => 3,
        Precedence::Product => 4,
        Precedence::Prefix => 5,
        Precedence::Call => 6,
    }
}

/// Decides `prec_rank(a) < prec_rank(b)`, the comparison driving the infix loop.
pub fn prec_lt(a: Precedence, b: Precedence) -> (r: bool)
    ensures
        r == (prec_rank(a) < prec_rank(b)),
{
    let ra: u8 = match a {
        Precedence::Lowest => 0,
        Precedence::Equals => 1,
        Precedence::LessGreater => 2,
        Precedence::Sum => 3,
        Precedence::Product => 4,
        Precedence::Prefix => 5,
        Precedence::Call => 6,
    };
    let rb: u8 = match b {
        Precedence::Lowest => 0,
        Precedence::Equals => 1,
        Precedence::LessGreater => 2,
        Precedence::Sum => 3,
        Precedence::Product => 4,
        Precedence::Prefix => 5,
        Precedence::Call => 6,
    };
    ra < rb
}

/// A prefix operator.
#[derive(Debug, PartialEq, Clone, Eq, Hash, Copy, Structural)]
pub enum Prefix {
    Bang,
    Minus,
}

/// An infix operator.
#[derive(Debug, PartialEq, Clone, Eq, Hash, Copy, Structural)]
pub enum Infix {
    Eq,
    NotEq,
    LT,
    GT,
    Plus,
    Minus,
    Slash,
    Asterisk,
}

/// An expression of the source language.
#[derive(Debug)]
pub enum Expression {
    Identifier(String),
    String(String),
    Integer(i64),
    Prefix {
        operator: Prefix,
        right: Box<Expression>,
    },
    Infix {
        operator: Infix,
        left: Box<Expression>,
        right: Box<Expression>,
    },
    Boolean(bool),
    /// `if (condition) { consequence } else { alternative }`; the branches are
    /// block statements.
    If {
        condition: Box<Expression>,
        consequence: Box<Statement>,
        alternative: Option<Box<Statement>>,
    },
    /// `fn(parameters) { body }`; every parameter is an identifier expression.
    Function {
        parameters: Vec<Expression>,
        body: Box<Statement>,
    },
    /// `function(arguments)`.
    Call {
        function: Box<Expression>,
        arguments: Vec<Expression>,
    },
}

/// A statement of the source language.
#[derive(Debug)]
pub enum Statement {
    /// `let identifier = value;`; the identifier slot holds an identifier
    /// expression.
    Let {
        identifier: Expression,
        value: Expression,
    },
    Return(Expression),
    Expression(Expression),
    Block(Vec<Statement>),
}

/// Mathematical image of an expression: strings become character sequences and
/// vectors become sequences.
pub enum ExprView {
    Identifier(Seq<char>),
    String(Seq<char>),
    Integer(i64),
    Prefix {
        operator: Prefix,
        right: Box<ExprView>,
    },
    Infix {
        operator: Infix,
        left: Box<ExprView>,
        right: Box<ExprView>,
    },
    Boolean(bool),
    If {
        condition: Box<ExprView>,
        consequence: Box<StmtView>,
        alternative: Option<Box<StmtView>>,
    },
    Function {
        parameters: Seq<ExprView>,
        body: Box<StmtView>,
    },
    Call {
        function: Box<ExprView>,
        arguments: Seq<ExprView>,
    },
}

/// Mathematical image of a statement.
pub enum StmtView {
    Let {
        identifier: ExprView,
        value: ExprView,
    },
    Return(ExprView),
    Expression(ExprView),
    Block(Seq<StmtView>),
}

/// The view of an expression.
pub open spec fn expr_view(e: Expression) -> ExprView
    decreases e,
{
    match e {
        Expression::Identifier(s) => ExprView::Identifier(s@),
        Expression::String(s) => ExprView::String(s@),
        Expression::Integer(n) => ExprView::Integer(n),
        Expression::Prefix { operator, right } => ExprView::Prefix {
            operator,
            right: Box::new(expr_view(*right)),
        },
        Expression::Infix { operator, left, right } => ExprView::Infix {
            operator,
            left: Box::new(expr_view(*left)),
            right: Box::new(expr_view(*right)),
        },
        Expression::Boolean(b) => ExprView::Boolean(b),
        Expression::If { condition, consequence, alternative } => ExprView::If {
            condition: Box::new(expr_view(*condition)),
            consequence: Box::new(stmt_view(*consequence)),
            alternative: match alternative {
                Some(alt) => Some(Box::new(stmt_view(*alt))),
                None => None,
            },
        },
        Expression::Function { parameters, body } => ExprView::Function {
            parameters: exprs_view(parameters@),
            body: Box::new(stmt_view(*body)),
        },
        Expression::Call { function, arguments } => ExprView::Call {
            function: Box::new(expr_view(*function)),
            arguments: exprs_view(arguments@),
        },
    }
}

/// The elementwise view of a sequence of expressions.
pub open spec fn exprs_view(es: Seq<Expression>) -> Seq<ExprView>
    decreases es,
{
    Seq::new(
        es.len(),
        |i: int|
            if 0 <= i < es.len() {
                expr_view(es[i])
            } else {
                ExprView::Integer(0)
            },
    )
}

/// The view of a statement.
pub open spec fn stmt_view(s: Statement) -> StmtView
    decreases s,
{
    match s {
        Statement::Let { identifier, value } => StmtView::Let {
            identifier: expr_view(identifier),
            value: expr_view(value),
        },
        Statement::Return(e) => StmtView::Return(expr_view(e)),
        Statement::Expression(e) => StmtView::Expression(expr_view(e)),
        Statement::Block(ss) => StmtView::Block(stmts_view(ss@)),
    }
}

/// The elementwise view of a sequence of statements.
pub open spec fn stmts_view(ss: Seq<Statement>) -> Seq<StmtView>
    decreases ss,
{
    Seq::new(
        ss.len(),
        |i: int|
            if 0 <= i < ss.len() {
                stmt_view(ss[i])
            } else {
                StmtView::Block(Seq::empty())
            },
    )
}

impl View for Expression {
    type V = ExprView;

    open spec fn view(&self) -> ExprView {
        expr_view(*self)
    }
}

impl DeepView for Expression {
    type V = ExprView;

    open spec fn deep_view(&self) -> ExprView {
        expr_view(*self)
    }
}

impl View for Statement {
    type V = StmtView;

    open spec fn view(&self) -> StmtView {
        stmt_view(*self)
    }
}

impl DeepView for Statement {
    type V = StmtView;

    open spec fn deep_view(&self) -> StmtView {
        stmt_view(*self)
    }
}

/// Deep copy of an expression; the copy has the same view.
pub fn clone_expr(e: &Expression) -> (r: Expression)
    ensures
        r@ == e@,
    decreases *e,
{
    match e {
        Expression::Identifier(s) => Expression::Identifier(s.clone()),
        Expression::String(s) => Expression::String(s.clone()),
        Expression::Integer(n) => Expression::Integer(*n),
        Expression::Prefix { operator, right } => Expression::Prefix {
            operator: *operator,
            right: Box::new(clone_expr(&**right)),
        },
        Expression::Infix { operator, left, right } => Expression::Infix {
            operator: *operator,
            left: Box::new(clone_expr(&**left)),
            right: Box::new(clone_expr(&**right)),
        },
        Expression::Boolean(b) => Expression::Boolean(*b),
        Expression::If { condition, consequence, alternative } => Expression::If {
            condition: Box::new(clone_expr(&**condition)),
            consequence: Box::new(clone_stmt(&**consequence)),
            alternative: match alternative {
                Some(alt) => Some(Box::new(clone_stmt(&**alt))),
                None => None,
            },
        },
        Expression::Function { parameters, body } => Expression::Function {
            parameters: clone_exprs(parameters),
            body: Box::new(clone_stmt(&**body)),
        },
        Expression::Call { function, arguments } => Expression::Call {
            function: Box::new(clone_expr(&**function)),
            arguments: clone_exprs(arguments),
        },
    }
}

/// Deep copy of a vector of expressions, elementwise.
pub fn clone_exprs(es: &Vec<Expression>) -> (r: Vec<Expression>)
    ensures
        exprs_view(r@) == exprs_view(es@),
    decreases *es,
{
    let mut r: Vec<Expression> = Vec::new();
    let mut i: usize = 0;
    while i < es.len()
        invariant
            i <= es.len(),
            r@.len() == i as int,
            forall|j: int| 0 <= j < i ==> expr_view(#[trigger] r@[j]) == expr_view(es@[j]),
        decreases es.len() - i,
    {
        r.push(clone_expr(&es[i]));
        i = i + 1;
    }
    proof {
        assert(exprs_view(r@) =~= exprs_view(es@));
    }
    r
}

/// Deep copy of a statement; the copy has the same view.
pub fn clone_stmt(s: &Statement) -> (r: Statement)
    ensures
        r@ == s@,
    decreases *s,
{
    match s {
        Statement::Let { identifier, value } => Statement::Let {
            identifier: clone_expr(identifier),
            value: clone_expr(value),
        },
        Statement::Return(e) => Statement::Return(clone_expr(e)),
        Statement::Expression(e) => Statement::Expression(clone_expr(e)),
        Statement::Block(ss) => Statement::Block(clone_stmts(ss)),
    }
}

/// Deep copy of a vector of statements, elementwise.
pub fn clone_stmts(ss: &Vec<Statement>) -> (r: Vec<Statement>)
    ensures
        stmts_view(r@) == stmts_view(ss@),
    decreases *ss,
{
    let mut r: Vec<Statement> = Vec::new();
    let mut i: usize = 0;
    while i < ss.len()
        invariant
            i <= ss.len(),
            r@.len() == i as int,
            forall|j: int| 0 <= j < i ==> stmt_view(#[trigger] r@[j]) == stmt_view(ss@[j]),
        decreases ss.len() - i,
    {
        r.push(clone_stmt(&ss[i]));
        i = i + 1;
    }
    proof {
        assert(stmts_view(r@) =~= stmts_view(ss@));
    }
    r
}

impl Clone for Expression {
    /// The copy has the same view as the original.
    fn clone(&self) -> (r: Self)
        ensures
            r@ == self@,
    {
        clone_expr(self)
    }
}

impl Clone for Statement {
    /// The copy has the same view as the original.
    fn clone(&self) -> (r: Self)
        ensures
            r@ == self@,
    {
        clone_stmt(self)
    }
}

/// Decides view equality of two expressions.
pub fn expr_eq(a: &Expression, b: &Expression) -> (r: bool)
    ensures
        r == (a@ == b@),
    decreases *a,
{
    match a {
        Expression::Identifier(x) => match b {
            Expression::Identifier(y) => *x == *y,
            _ => false,
        },
        Expression::String(x) => match b {
            Expression::String(y) => *x == *y,
            _ => false,
        },
        Expression::Integer(x) => match b {
            Expression::Integer(y) => *x == *y,
            _ => false,
        },
        Expression::Boolean(x) => match b {
            Expression::Boolean(y) => *x == *y,
            _ => false,
        },
        Expression::Prefix { operator, right } => match b {
            Expression::Prefix { operator: bo, right: br } => {
                *operator == *bo && expr_eq(&**right, &**br)
            },
            _ => false,
        },
        Expression::Infix { operator, left, right } => match b {
            Expression::Infix { operator: bo, left: bl, right: br } => {
                *operator == *bo && expr_eq(&**left, &**bl) && expr_eq(&**right, &**br)
            },
            _ => false,
        },
        Expression::If { condition, consequence, alternative } => match b {
            Expression::If { condition: bc, consequence: bq, alternative: ba } => {
                expr_eq(&**condition, &**bc) && stmt_eq(&**consequence, &**bq) && match alternative {
                    Some(x) => match ba {
                        Some(y) => stmt_eq(&**x, &**y),
                        None => false,
                    },
                    None => matches!(ba, None),
                }
            },
            _ => false,
        },
        Expression::Function { parameters, body } => match b {
            Expression::Function { parameters: bp, body: bb } => {
                exprs_eq(parameters, bp) && stmt_eq(&**body, &**bb)
            },
            _ => false,
        },
        Expression::Call { function, arguments } => match b {
            Expression::Call { function: bf, arguments: ba } => {
                expr_eq(&**function, &**bf) && exprs_eq(arguments, ba)
            },
            _ => false,
        },
    }
}

/// Decides elementwise view equality of two vectors of expressions.
pub fn exprs_eq(a: &Vec<Expression>, b: &Vec<Expression>) -> (r: bool)
    ensures
        r == (exprs_view(a@) == exprs_view(b@)),
    decreases *a,
{
    if a.len() != b.len() {
        proof {
            assert(exprs_view(a@).len() != exprs_view(b@).len());
        }
        return false;
    }
    let mut i: usize = 0;
    while i < a.len()
        invariant
            i <= a.len(),
            a@.len() == b@.len(),
            forall|j: int| 0 <= j < i ==> expr_view(#[trigger] a@[j]) == expr_view(b@[j]),
        decreases a.len() - i,
    {
        if !expr_eq(&a[i], &b[i]) {
            proof {
                assert(exprs_view(a@)[i as int] != exprs_view(b@)[i as int]);
            }
            return false;
        }
        i = i + 1;
    }
    proof {
        assert(exprs_view(a@) =~= exprs_view(b@));
    }
    true
}

/// Decides view equality of two statements.
pub fn stmt_eq(a: &Statement, b: &Statement) -> (r: bool)
    ensures
        r == (a@ == b@),
    decreases *a,
{
    match a {
        Statement::Let { identifier, value } => match b {
            Statement::Let { identifier: bi, value: bv } => {
                expr_eq(identifier, bi) && expr_eq(value, bv)
            },
            _ => false,
        },
        Statement::Return(x) => match b {
            Statement::Return(y) => expr_eq(x, y),
            _ => false,
        },
        Statement::Expression(x) => match b {
            Statement::Expression(y) => expr_eq(x, y),
            _ => false,
        },
        Statement::Block(x) => match b {
            Statement::Block(y) => stmts_eq(x, y),
            _ => false,
        },
    }
}

/// Decides elementwise view equality of two vectors of statements.
pub fn stmts_eq(a: &Vec<Statement>, b: &Vec<Statement>) -> (r: bool)
    ensures
        r == (stmts_view(a@) == stmts_view(b@)),
    decreases *a,
{
    if a.len() != b.len() {
        proof {
            assert(stmts_view(a@).len() != stmts_view(b@).len());
        }
        return false;
    }
    let mut i: usize = 0;
    while i < a.len()
        invariant
            i <= a.len(),
            a@.len() == b@.len(),
            forall|j: int| 0 <= j < i ==> stmt_view(#[trigger] a@[j]) == stmt_view(b@[j]),
        decreases a.len() - i,
    {
        if !stmt_eq(&a[i], &b[i]) {
            proof {
                assert(stmts_view(a@)[i as int] != stmts_view(b@)[i as int]);
            }
            return false;
        }
        i = i + 1;
    }
    proof {
        assert(stmts_view(a@) =~= stmts_view(b@));
    }
    true
}

impl PartialEq for Expression {
    /// Two expressions are equal when their views are equal.
    fn eq(&self, other: &Self) -> (r: bool) {
        expr_eq(self, other)
    }
}

impl vstd::std_specs::cmp::PartialEqSpecImpl for Expression {
    open spec fn obeys_eq_spec() -> bool {
        true
    }

    open spec fn eq_spec(&self, other: &Expression) -> bool {
        self@ == other@
    }
}

impl PartialEq for Statement {
    /// Two statements are equal when their views are equal.
    fn eq(&self, other: &Self) -> (r: bool) {
        stmt_eq(self, other)
    }
}

impl vstd::std_specs::cmp::PartialEqSpecImpl for Statement {
    open spec fn obeys_eq_spec() -> bool {
        true
    }

    open spec fn eq_spec(&self, other: &Statement) -> bool {
        self@ == other@
    }
}

/// Root node of the tree: the ordered statements of a program.
#[derive(Debug, Clone)]
pub struct Program {
    pub statements: Vec<Statement>,
}

impl View for Program {
    type V = Seq<StmtView>;

    open spec fn view(&self) -> Seq<StmtView> {
        stmts_view(self.statements@)
    }
}

impl Program {
    /// An empty program.
    pub fn new() -> (r: Program)
        ensures
            r@ == Seq::<StmtView>::empty(),
    {
        let r = Program { statements: Vec::new() };
        proof {
            assert(r@ =~= Seq::<StmtView>::empty());
        }
        r
    }
}

impl Program {
    /// Renders the program, one statement per line.
    pub fn display_string(&self) -> (r: String)
        ensures
            r@ == program_display(self@, 0),
    {
        let mut out = String::new();
        let mut i: usize = 0;
        while i < self.statements.len()
            invariant
                i <= self.statements.len(),
                out@ + program_display(self@, i as int) == program_display(self@, 0),
            decreases self.statements.len() - i,
        {
            out.append(self.statements[i].display_string().as_str());
            out.append("\n");
            i = i + 1;
        }
        proof {
            assert(out@ =~= out@ + program_display(self@, i as int));
        }
        out
    }
}

impl Default for Program {
    fn default() -> (r: Self)
        ensures
            r@ == Seq::<StmtView>::empty(),
    {
        Program::new()
    }
}

/// Rendering of a prefix operator.
pub open spec fn prefix_display(op: Prefix) -> Seq<char> {
    match op {
        Prefix::Bang => "!"@,
        Prefix::Minus => "-"@,
    }
}

/// Rendering of an infix operator.
pub open spec fn infix_display(op: Infix) -> Seq<char> {
    match op {
        Infix::Plus => "+"@,
        Infix::Minus => "-"@,
        Infix::Asterisk => "*"@,
        Infix::Slash => "/"@,
        Infix::Eq => "=="@,
        Infix::NotEq => "!="@,
        Infix::LT => "<"@,
        Infix::GT => ">"@,
    }
}

/// Canonical rendering of an expression: every compound expression is
/// parenthesized in full, so the rendering reparses to the same tree.
pub open spec fn expr_display(e: ExprView) -> Seq<char>
    decreases e, 0int,
{
    match e {
        ExprView::Identifier(s) => s,
        ExprView::String(s) => s,
        ExprView::Integer(n) => i64_dec(n as int),
        ExprView::Boolean(b) => if b {
            "true"@
        } else {
            "false"@
        },
        ExprView::Prefix { operator, right } => "("@ + prefix_display(operator) + expr_display(
            *right,
        ) + ")"@,
        ExprView::Infix { operator, left, right } => "("@ + expr_display(*left) + infix_display(
            operator,
        ) + expr_display(*right) + ")"@,
        ExprView::If { condition, consequence, alternative } => match alternative {
            Some(alt) => "if("@ + expr_display(*condition) + "){"@ + stmt_display(*consequence)
                + "}else{"@ + stmt_display(*alt) + "}"@,
            None => "if("@ + expr_display(*condition) + "){"@ + stmt_display(*consequence) + "}"@,
        },
        ExprView::Function { parameters, body } => "fn("@ + exprs_display_join(parameters, 0)
            + "){"@ + stmt_display(*body) + "}"@,
        ExprView::Call { function, arguments } => expr_display(*function) + "("@
            + exprs_display_join(arguments, 0) + ")"@,
    }
}

/// Comma-joined rendering of the expressions of `es` from index `i` on.
pub open spec fn exprs_display_join(es: Seq<ExprView>, i: int) -> Seq<char>
    decreases es, es.len() - i,
{
    if i < 0 || i >= es.len() {
        Seq::empty()
    } else if i == es.len() - 1 {
        expr_display(es[i])
    } else {
        expr_display(es[i]) + ","@ + exprs_display_join(es, i + 1)
    }
}

/// Rendering of a statement; a block renders as its statements concatenated.
pub open spec fn stmt_display(s: StmtView) -> Seq<char>
    decreases s, 0int,
{
    match s {
        StmtView::Let { identifier, value } => "let "@ + expr_display(identifier) + " = "@
            + expr_display(value) + ";"@,
        StmtView::Return(e) => "return "@ + expr_display(e) + ";"@,
        StmtView::Expression(e) => expr_display(e) + ";"@,
        StmtView::Block(ss) => stmts_display_concat(ss, 0),
    }
}

/// Concatenated rendering of the statements of `ss` from index `i` on.
pub open spec fn stmts_display_concat(ss: Seq<StmtView>, i: int) -> Seq<char>
    decreases ss, ss.len() - i,
{
    if i < 0 || i >= ss.len() {
        Seq::empty()
    } else {
        stmt_display(ss[i]) + stmts_display_concat(ss, i + 1)
    }
}

/// Rendering of a program: each statement on a line of its own.
pub open spec fn program_display(ss: Seq<StmtView>, i: int) -> Seq<char>
    decreases ss.len() - i,
{
    if i < 0 || i >= ss.len() {
        Seq::empty()
    } else {
        stmt_display(ss[i]) + "\n"@ + program_display(ss, i + 1)
    }
}

impl Prefix {
    /// Renders the operator.
    pub fn display_string(&self) -> (r: String)
        ensures
            r@ == prefix_display(*self),
    {
        match self {
            Prefix::Bang => "!".to_owned(),
            Prefix::Minus => "-".to_owned(),
        }
    }
}

impl Infix {
    /// Renders the operator.
    pub fn display_string(&self) -> (r: String)
        ensures
            r@ == infix_display(*self),
    {
        match self {
            Infix::Plus => "+".to_owned(),
            Infix::Minus => "-".to_owned(),
            Infix::Asterisk => "*".to_owned(),
            Infix::Slash => "/".to_owned(),
            Infix::Eq => "==".to_owned(),
            Infix::NotEq => "!=".to_owned(),
            Infix::LT => "<".to_owned(),
            Infix::GT => ">".to_owned(),
        }
    }
}

impl Expression {
    /// Renders the expression in its canonical, fully parenthesized form.
    pub fn display_string(&self) -> (r: String)
        ensures
            r@ == expr_display(self@),
        decreases *self, 0int,
    {
        match self {
            Expression::Identifier(s) => s.clone(),
            Expression::String(s) => s.clone(),
            Expression::Integer(n) => i64_dec_string(*n),
            Expression::Boolean(b) => if *b {
                "true".to_owned()
            } else {
                "false".to_owned()
            },
            Expression::Prefix { operator, right } => {
                let mut out = String::new();
                out.append("(");
                out.append(operator.display_string().as_str());
                out.append((&**right).display_string().as_str());
                out.append(")");
                out
            },
            Expression::Infix { operator, left, right } => {
                let mut out = String::new();
                out.append("(");
                out.append((&**left).display_string().as_str());
                out.append(operator.display_string().as_str());
                out.append((&**right).display_string().as_str());
                out.append(")");
                out
            },
            Expression::If { condition, consequence, alternative } => {
                let mut out = String::new();
                out.append("if(");
                out.append((&**condition).display_string().as_str());
                out.append("){");
                out.append((&**consequence).display_string().as_str());
                match alternative {
                    Some(alt) => {
                        out.append("}else{");
                        out.append((&**alt).display_string().as_str());
                        out.append("}");
                    },
                    None => {
                        out.append("}");
                    },
                }
                out
            },
            Expression::Function { parameters, body } => {
                let mut out = String::new();
                out.append("fn(");
                out.append(display_exprs_join(parameters, 0).as_str());
                out.append("){");
                out.append((&**body).display_string().as_str());
                out.append("}");
                out
            },
            Expression::Call { function, arguments } => {
                let mut out = (&**function).display_string();
                out.append("(");
                out.append(display_exprs_join(arguments, 0).as_str());
                out.append(")");
                out
            },
        }
    }
}

/// Renders the expressions of `es` from index `i` on, joined by commas.
pub fn display_exprs_join(es: &Vec<Expression>, i: usize) -> (r: String)
    ensures
        r@ == exprs_display_join(exprs_view(es@), i as int),
    decreases *es, es.len() - i,
{
    if i >= es.len() {
        String::new()
    } else if i == es.len() - 1 {
        es[i].display_string()
    } else {
        let mut out = es[i].display_string();
        out.append(",");
        out.append(display_exprs_join(es, i + 1).as_str());
        out
    }
}

impl Statement {
    /// Renders the statement; a block renders as its statements concatenated.
    pub fn display_string(&self) -> (r: String)
        ensures
            r@ == stmt_display(self@),
        decreases *self, 0int,
    {
        match self {
            Statement::Let { identifier, value } => {
                let mut out = String::new();
                out.append("let ");
                out.append(identifier.display_string().as_str());
                out.append(" = ");
                out.append(value.display_string().as_str());
                out.append(";");
                out
            },
            Statement::Return(e) => {
                let mut out = String::new();
                out.append("return ");
                out.append(e.display_string().as_str());
                out.append(";");
                out
            },
            Statement::Expression(e) => {
                let mut out = e.display_string();
                out.append(";");
                out
            },
            Statement::Block(ss) => display_stmts_concat(ss, 0),
        }
    }
}

/// Renders the statements of `ss` from index `i` on, concatenated.
pub fn display_stmts_concat(ss: &Vec<Statement>, i: usize) -> (r: String)
    ensures
        r@ == stmts_display_concat(stmts_view(ss@), i as int),
    decreases *ss, ss.len() - i,
{
    if i >= ss.len() {
        String::new()
    } else {
        let mut out = ss[i].display_string();
        out.append(display_stmts_concat(ss, i + 1).as_str());
        out
    }
}

/// A placeholder node kept for debugging.
#[derive(Debug, PartialEq, Clone, Eq, Hash)]
pub struct Node {}

impl Node {
    /// A debugging stub; it carries no information.
    pub fn token_literal() {
    }
}

} // verus!
