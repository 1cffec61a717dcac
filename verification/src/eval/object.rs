//! Runtime values and their mathematical view.

use vstd::prelude::*;
use vstd::string::StringExecFns;
use crate::parser::ast::{
    Expression, Statement, ExprView, StmtView, exprs_view, stmt_view, clone_exprs, clone_stmt,
    exprs_eq, stmt_eq, exprs_display_join, stmt_display, display_exprs_join,
};
use crate::text::{i64_dec, i64_dec_string};

verus! {

broadcast use vstd::std_specs::vec::group_vec_axioms, vstd::seq::group_seq_axioms;

/// The tag of a runtime value, as error reports carry it.
#[derive(Debug, Clone, PartialEq, Eq, Copy, Structural)]
pub enum ObjectType {
    Integer,
    Bool,
    Null,
}

/// A runtime value. `Return` is the propagation sentinel wrapped around the
/// value of a `return` statement; it never escapes evaluation. A `Function`
/// value carries its parameter list, its body, and the scope it captured as
/// an index into the evaluator's scope arena.
#[derive(Debug)]
pub enum Object {
    Integer(i64),
    String(String),
    Bool(bool),
    Null,
    Return(Box<Object>),
    Function {
        /// The parameters, each an identifier expression.
        parameters: Vec<Expression>,
        /// The body, a block statement.
        body: Statement,
        /// The captured scope: an index into the owning evaluator's arena.
        env: usize,
    },
}

/// Mathematical image of a runtime value.
pub enum ObjView {
    Integer(i64),
    String(Seq<char>),
    Bool(bool),
    Null,
    Return(Box<ObjView>),
    Function { parameters: Seq<ExprView>, body: StmtView, env: int },
}

/// The view of a runtime value.
pub open spec fn obj_view(o: Object) -> ObjView
    decreases o,
{
    match o {
        Object::Integer(n) => ObjView::Integer(n),
        Object::String(s) => ObjView::String(s@),
        Object::Bool(b) => ObjView::Bool(b),
        Object::Null => ObjView::Null,
        Object::Return(b) => ObjView::Return(Box::new(obj_view(*b))),
        Object::Function { parameters, body, env } => ObjView::Function {
            parameters: exprs_view(parameters@),
            body: stmt_view(body),
            env: env as int,
        },
    }
}

impl View for Object {
    type V = ObjView;

    open spec fn view(&self) -> ObjView {
        obj_view(*self)
    }
}

impl DeepView for Object {
    type V = ObjView;

    open spec fn deep_view(&self) -> ObjView {
        obj_view(*self)
    }
}

/// Whether every captured scope index inside `v` lies below `n`, the length
/// of the owning evaluator's arena.
pub open spec fn obj_wf(v: ObjView, n: int) -> bool
    decreases v,
{
    match v {
        ObjView::Return(b) => obj_wf(*b, n),
        ObjView::Function { parameters, body, env } => 0 <= env < n,
        _ => true,
    }
}

/// Truthiness of a value: `Null` and `false` are false, everything else is
/// true.
pub open spec fn spec_truthy(v: ObjView) -> bool {
    match v {
        ObjView::Null => false,
        ObjView::Bool(b) => b,
        _ => true,
    }
}

impl Object {
    /// The truthiness of this value, exactly as `spec_truthy` defines it for
    /// each variant.
    pub fn is_truthy(&self) -> (r: bool)
        ensures
            r == spec_truthy(self@),
    {
        match self {
            Object::Null => false,
            Object::Bool(value) => *value,
            _ => true,
        }
    }
}

/// Rendering of a runtime value: integers in decimal, booleans as `true` or
/// `false`, strings raw, `null` for the null value, a return sentinel as the
/// value it wraps, and a function as `fn(parameters){body}`.
pub open spec fn obj_display(v: ObjView) -> Seq<char>
    decreases v,
{
    match v {
        ObjView::Integer(n) => i64_dec(n as int),
        ObjView::String(s) => s,
        ObjView::Bool(b) => if b {
            "true"@
        } else {
            "false"@
        },
        ObjView::Null => "null"@,
        ObjView::Return(b) => obj_display(*b),
        ObjView::Function { parameters, body, env } => "fn("@ + exprs_display_join(parameters, 0)
            + "){"@ + stmt_display(body) + "}"@,
    }
}

impl Object {
    /// Renders the value as `obj_display` describes.
    pub fn display_string(&self) -> (r: String)
        ensures
            r@ == obj_display(self@),
        decreases *self,
    {
        match self {
            Object::Integer(n) => i64_dec_string(*n),
            Object::String(s) => s.clone(),
            Object::Bool(b) => if *b {
                "true".to_owned()
            } else {
                "false".to_owned()
            },
            Object::Null => "null".to_owned(),
            Object::Return(b) => (&**b).display_string(),
            Object::Function { parameters, body, env } => {
                let mut out = String::new();
                out.append("fn(");
                out.append(display_exprs_join(parameters, 0).as_str());
                out.append("){");
                out.append(body.display_string().as_str());
                out.append("}");
                out
            },
        }
    }
}

/// Deep copy of a value; the copy has the same view.
pub fn clone_object(o: &Object) -> (r: Object)
    ensures
        r@ == o@,
    decreases *o,
{
    match o {
        Object::Integer(n) => Object::Integer(*n),
        Object::String(s) => Object::String(s.clone()),
        Object::Bool(b) => Object::Bool(*b),
        Object::Null => Object::Null,
        Object::Return(b) => Object::Return(Box::new(clone_object(&**b))),
        Object::Function { parameters, body, env } => Object::Function {
            parameters: clone_exprs(parameters),
            body: clone_stmt(body),
            env: *env,
        },
    }
}

impl Clone for Object {
    /// The copy has the same view as the original.
    fn clone(&self) -> (r: Self)
        ensures
            r@ == self@,
    {
        clone_object(self)
    }
}

/// Decides view equality of two values.
pub fn obj_eq(a: &Object, b: &Object) -> (r: bool)
    ensures
        r == (a@ == b@),
    decreases *a,
{
    match a {
        Object::Integer(x) => match b {
            Object::Integer(y) => *x == *y,
            _ => false,
        },
        Object::String(x) => match b {
            Object::String(y) => *x == *y,
            _ => false,
        },
        Object::Bool(x) => match b {
            Object::Bool(y) => *x == *y,
            _ => false,
        },
        Object::Null => matches!(b, Object::Null),
        Object::Return(x) => match b {
            Object::Return(y) => obj_eq(&**x, &**y),
            _ => false,
        },
        Object::Function { parameters, body, env } => match b {
            Object::Function { parameters: bp, body: bb, env: be } => {
                exprs_eq(parameters, bp) && stmt_eq(body, bb) && *env == *be
            },
            _ => false,
        },
    }
}

impl PartialEq for Object {
    /// Two values are equal when their views are equal.
    fn eq(&self, other: &Self) -> (r: bool) {
        obj_eq(self, other)
    }
}

impl vstd::std_specs::cmp::PartialEqSpecImpl for Object {
    open spec fn obeys_eq_spec() -> bool {
        true
    }

    open spec fn eq_spec(&self, other: &Object) -> bool {
        self@ == other@
    }
}

} // verus!
