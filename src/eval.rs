use vstd::prelude::*;

use crate::ast::{Expression, Identifier, Literal, Program, Statement};
use crate::lexer::{chars_of, copy_chars};
use crate::object::{
    chars_eq, lemma_objs_v_len, lemma_objs_v_push, lemma_opairs_v_push, obj_v, objs_v, opairs_v,
    opt_v, Object, Val,
};
use crate::ops::{
    builtin_named, builtin_of, builtin_val, call_builtin, dot_object, dot_val, error_object,
    index_object, index_val, infix_object, infix_val, prefix_object, prefix_val,
};
use crate::render::{render_value, show_val};
use crate::show::{int_text, push_chars, push_nat};

verus! {

/// How deeply function calls may nest before a call fails with an error.
pub const MAX_CALL_DEPTH: usize = 200;

/// The model of one scope: its bindings in the order they were made, and
/// the index of the enclosing scope.
pub struct FrameV {
    pub vars: Seq<(Seq<char>, Val)>,
    pub parent: Option<usize>,
}

/// The model of the evaluator: every scope ever made, the active one, and
/// the error messages reported so far.
pub struct State {
    pub frames: Seq<FrameV>,
    pub env: usize,
    pub errors: Seq<Seq<char>>,
}

/// One scope. A later binding of a name shadows an earlier one.
pub struct Frame<'a> {
    pub vars: Vec<(Vec<char>, Object<'a>)>,
    pub parent: Option<usize>,
}

/// The tree-walking evaluator. Scopes live in an arena; a closure names the
/// scope it captured by its index, so every closure that shares a scope
/// sees the bindings later made in it.
///
/// Error values are ordinary values: they can be stored in arrays and
/// hashes, passed to functions and returned. A statement whose value is an
/// error has it reported in `errors`, and the statements after it still run.
/// Calls nest at most `MAX_CALL_DEPTH` deep; a deeper call is an error value.
pub struct Evaluator<'a> {
    pub frames: Vec<Frame<'a>>,
    pub env: usize,
    /// Error values that statements produced, reported in order.
    pub errors: Vec<Vec<char>>,
}

pub open spec fn var_v<'a>(p: (Vec<char>, Object<'a>)) -> (Seq<char>, Val) {
    (p.0@, obj_v(p.1))
}

pub open spec fn frame_v<'a>(f: Frame<'a>) -> FrameV {
    FrameV { vars: f.vars@.map_values(|p: (Vec<char>, Object<'a>)| var_v(p)), parent: f.parent }
}

/// The latest binding of `name` among the first `n` bindings.
pub open spec fn find_var(vars: Seq<(Seq<char>, Val)>, name: Seq<char>, n: int) -> Option<Val>
    decreases n,
{
    if 0 < n <= vars.len() {
        if vars[n - 1].0 == name {
            Some(vars[n - 1].1)
        } else {
            find_var(vars, name, n - 1)
        }
    } else {
        None
    }
}

/// The value of `name` seen from scope `i`: its own bindings first, then
/// those of the enclosing scopes.
pub open spec fn lookup(frames: Seq<FrameV>, i: int, name: Seq<char>) -> Option<Val>
    decreases i,
{
    if 0 <= i < frames.len() {
        match find_var(frames[i].vars, name, frames[i].vars.len() as int) {
            Some(v) => Some(v),
            None => match frames[i].parent {
                Some(p) => if p < i {
                    lookup(frames, p as int, name)
                } else {
                    None
                },
                None => None,
            },
        }
    } else {
        None
    }
}

/// Binds `name` in the active scope.
pub open spec fn bind(s: State, name: Seq<char>, v: Val) -> State {
    if s.env < s.frames.len() {
        State {
            frames: s.frames.update(
                s.env as int,
                FrameV {
                    vars: s.frames[s.env as int].vars.push((name, v)),
                    parent: s.frames[s.env as int].parent,
                },
            ),
            ..s
        }
    } else {
        s
    }
}

pub open spec fn report(s: State, m: Seq<char>) -> State {
    State { errors: s.errors.push(m), ..s }
}

pub open spec fn initial_state() -> State {
    State { frames: seq![FrameV { vars: Seq::empty(), parent: None }], env: 0, errors: Seq::empty() }
}

/// An identifier: a binding in scope, else a builtin, else an error.
pub open spec fn ident_val(s: State, name: Seq<char>) -> Val {
    match lookup(s.frames, s.env as int, name) {
        Some(v) => v,
        None => match builtin_of(name) {
            Some(b) => Val::Builtin(b),
            None => Val::Error("Identifier not found (eval_identifier): "@ + name),
        },
    }
}

pub open spec fn arity_msg(params: nat, args: nat) -> Seq<char> {
    "Wrong number of arguments. Expected "@ + int_text(params as int) + ", got "@ + int_text(
        args as int,
    )
}

/// The bindings of a call's parameters to its arguments, by position.
pub open spec fn bind_params(params: Seq<Identifier>, args: Seq<Val>) -> Seq<(Seq<char>, Val)> {
    Seq::new(params.len(), |i: int| (params[i].value@, args[i]))
}

/// A value with every `return` wrapper taken off.
pub open spec fn strip(v: Val) -> Val
    decreases v,
{
    match v {
        Val::Return(b) => strip(*b),
        _ => v,
    }
}

/// A function's result: `return v` in its body gives `v`.
pub open spec fn unwrap_ret(r: Option<Val>) -> Option<Val> {
    match r {
        Some(v) => Some(strip(v)),
        None => None,
    }
}

/// Evaluates an expression with call depth `d` left. `None` means that the
/// expression could not be evaluated at all.
pub open spec fn ev_expr(s: State, d: nat, e: Expression) -> (State, Option<Val>)
    decreases d, e, 1int,
{
    match e {
        Expression::Literal(l) => match l {
            Literal::Integer(n) => (s, Some(Val::Integer(n))),
            Literal::Boolean(b) => (s, Some(Val::Boolean(b))),
            Literal::String(t) => (s, Some(Val::Str(t@))),
            Literal::Array(v) => {
                let (s1, r) = ev_list(s, d, v, 0, Seq::empty());
                (
                    s1,
                    match r {
                        Some(xs) => Some(Val::Array(xs)),
                        None => None,
                    },
                )
            },
            Literal::Hash(v) => ev_hash(s, d, v, 0, Seq::empty()),
        },
        Expression::Identifier(id) => (s, Some(ident_val(s, id.value@))),
        Expression::Prefix { operator, right } => {
            let (s1, r) = ev_expr(s, d, *right);
            (
                s1,
                match r {
                    Some(v) => Some(prefix_val(operator, v)),
                    None => None,
                },
            )
        },
        Expression::Infix { left, operator, right } => {
            let (s1, l) = ev_expr(s, d, *left);
            match l {
                None => (s1, None),
                Some(lv) => {
                    let (s2, r) = ev_expr(s1, d, *right);
                    (
                        s2,
                        match r {
                            Some(rv) => Some(infix_val(operator, lv, rv)),
                            None => None,
                        },
                    )
                },
            }
        },
        Expression::If { condition, consequence, alternative } => {
            let (s1, c) = ev_expr(s, d, *condition);
            match c {
                None => (s1, None),
                Some(Val::Boolean(b)) => if b {
                    ev_block(s1, d, consequence, 0, None, false)
                } else {
                    match alternative {
                        Some(a) => ev_block(s1, d, a, 0, None, false),
                        None => (s1, Some(Val::Null)),
                    }
                },
                Some(_) => (s1, Some(Val::Error("Use if conditionals on booleans"@))),
            }
        },
        Expression::FunctionLiteral { parameters, body } => (
            s,
            Some(Val::Function(parameters, body, s.env)),
        ),
        Expression::FunctionCall { .. } => ev_call(s, d, e),
        Expression::IndexExpression { left, index } => {
            let (s1, l) = ev_expr(s, d, *left);
            let (s2, i) = ev_expr(s1, d, *index);
            match (l, i) {
                (Some(lv), Some(iv)) => (s2, Some(index_val(lv, iv))),
                _ => (s2, None),
            }
        },
        Expression::DotNotation { left, right } => {
            let (s1, l) = ev_expr(s, d, *left);
            (
                s1,
                match l {
                    Some(lv) => Some(dot_val(lv, *right)),
                    None => None,
                },
            )
        },
    }
}

/// A call: the callee, then the arguments (one that cannot be evaluated
/// counts as `Null`), then the body in a new scope under the captured one.
pub open spec fn ev_call(s: State, d: nat, e: Expression) -> (State, Option<Val>)
    decreases d, e, 0int,
{
    match e {
        Expression::FunctionCall { function, arguments } => {
            let (s1, f) = ev_expr(s, d, *function);
            match f {
                None => (s1, None),
                Some(fv) => {
                    let (s2, args) = ev_args(s1, d, arguments, 0, Seq::empty());
                    match fv {
                        Val::Function(params, body, env) => if args.len() != params.len() {
                            (s2, Some(Val::Error(arity_msg(params@.len(), args.len()))))
                        } else if d == 0 {
                            (s2, Some(Val::Error("Maximum call depth exceeded"@)))
                        } else {
                            let s3 = State {
                                frames: s2.frames.push(
                                    FrameV { vars: bind_params(params@, args), parent: Some(env) },
                                ),
                                env: s2.frames.len() as usize,
                                errors: s2.errors,
                            };
                            let (s4, r) = ev_block(s3, (d - 1) as nat, body, 0, None, false);
                            (State { env: s2.env, ..s4 }, unwrap_ret(r))
                        },
                        Val::Builtin(b) => (s2, Some(builtin_val(b, args))),
                        _ => (s2, Some(Val::Error("Not a function: "@ + show_val(fv)))),
                    }
                },
            }
        },
        _ => (s, None),
    }
}

/// The elements of an array literal from `i` on; fails when one fails.
pub open spec fn ev_list(s: State, d: nat, v: Vec<Expression>, i: int, acc: Seq<Val>) -> (
    State,
    Option<Seq<Val>>,
)
    decreases d, v, v.len() - i,
{
    if 0 <= i < v.len() {
        let (s1, r) = ev_expr(s, d, v[i]);
        match r {
            None => (s1, None),
            Some(x) => ev_list(s1, d, v, i + 1, acc.push(x)),
        }
    } else {
        (s, Some(acc))
    }
}

/// The arguments of a call from `i` on; one that fails counts as `Null`.
pub open spec fn ev_args(s: State, d: nat, v: Vec<Expression>, i: int, acc: Seq<Val>) -> (
    State,
    Seq<Val>,
)
    decreases d, v, v.len() - i,
{
    if 0 <= i < v.len() {
        let (s1, r) = ev_expr(s, d, v[i]);
        let x = match r {
            Some(x) => x,
            None => Val::Null,
        };
        ev_args(s1, d, v, i + 1, acc.push(x))
    } else {
        (s, acc)
    }
}

/// The pairs of a hash literal from `i` on: each key, then its value; every
/// key must be a string.
pub open spec fn ev_hash(
    s: State,
    d: nat,
    v: Vec<(Expression, Expression)>,
    i: int,
    acc: Seq<(Val, Val)>,
) -> (State, Option<Val>)
    decreases d, v, v.len() - i,
{
    if 0 <= i < v.len() {
        let (s1, k) = ev_expr(s, d, v[i].0);
        match k {
            None => (s1, None),
            Some(kv) => if kv is Str {
                let (s2, x) = ev_expr(s1, d, v[i].1);
                match x {
                    None => (s2, None),
                    Some(xv) => ev_hash(s2, d, v, i + 1, acc.push((kv, xv))),
                }
            } else {
                (s1, Some(Val::Error("Hash keys must be strings"@)))
            },
        }
    } else {
        (s, Some(Val::Hash(acc)))
    }
}

/// Executes one statement. `let` binds in the active scope; reassignment
/// needs the name bound somewhere in scope and then binds it in the active
/// scope, shadowing rather than changing an enclosing binding. A value that
/// is already a `return` wrapper (a `return` inside an `if`) passes through
/// any statement unchanged, binds nothing, and so ends the enclosing block.
pub open spec fn ev_stmt(s: State, d: nat, st: Statement) -> (State, Option<Val>)
    decreases d, st, 1int,
{
    match st {
        Statement::Expression { value } => ev_expr(s, d, value),
        Statement::Return { value } => {
            let (s1, r) = ev_expr(s, d, value);
            (
                s1,
                match r {
                    Some(v) => Some(
                        if v is Return {
                            v
                        } else {
                            Val::Return(Box::new(v))
                        },
                    ),
                    None => None,
                },
            )
        },
        Statement::Let { name, value } => {
            let (s1, r) = ev_expr(s, d, value);
            match r {
                Some(v) => if v is Return {
                    (s1, Some(v))
                } else {
                    (bind(s1, name.value@, v), Some(Val::Empty))
                },
                None => (s1, None),
            }
        },
        Statement::ReAssign { name, value } => {
            let (s1, r) = ev_expr(s, d, value);
            match r {
                None => (s1, None),
                Some(v) => if v is Return {
                    (s1, Some(v))
                } else if lookup(s1.frames, s1.env as int, name.value@) is Some {
                    (bind(s1, name.value@, v), Some(Val::Empty))
                } else {
                    (s1, Some(Val::Error("Identifier not found: "@ + name.value@)))
                },
            }
        },
    }
}

/// Executes statements from `i` on. `acc` is the value of the last statement
/// so far. A `return` stops the sequence: at the top level it gives its
/// value, in a block it stays wrapped so that it stops the enclosing blocks
/// too. An error value is reported and the next statement runs. A statement
/// that cannot be evaluated stops the sequence with an error.
pub open spec fn ev_block(
    s: State,
    d: nat,
    b: Vec<Statement>,
    i: int,
    acc: Option<Val>,
    top: bool,
) -> (State, Option<Val>)
    decreases d, b, b.len() - i,
{
    if 0 <= i < b.len() {
        let (s1, r) = ev_stmt(s, d, b[i]);
        match r {
            Some(Val::Return(v)) => (
                s1,
                Some(
                    if top {
                        strip(*v)
                    } else {
                        Val::Return(v)
                    },
                ),
            ),
            Some(Val::Error(m)) => ev_block(report(s1, m), d, b, i + 1, acc, top),
            Some(v) => ev_block(s1, d, b, i + 1, Some(v), top),
            None => (s1, Some(Val::Error("Could not evaluate statement"@))),
        }
    } else {
        (s, acc)
    }
}

/// What a program evaluates to, and the state after it.
pub open spec fn run(s: State, p: Program) -> (State, Option<Val>) {
    ev_block(s, MAX_CALL_DEPTH as nat, p, 0, None, true)
}

/// Takes every `return` wrapper off a value.
pub fn strip_return<'a>(o: Object<'a>) -> (r: Object<'a>)
    ensures
        obj_v(r) == strip(obj_v(o)),
        !(r is Return),
    decreases o,
{
    match o {
        Object::Return(b) => strip_return(*b),
        other => other,
    }
}

impl<'a> Evaluator<'a> {
    pub open spec fn state(&self) -> State {
        State {
            frames: self.frames@.map_values(|f: Frame<'a>| frame_v(f)),
            env: self.env,
            errors: self.errors@.map_values(|m: Vec<char>| m@),
        }
    }

    /// The active scope exists.
    pub open spec fn wf(&self) -> bool {
        self.env < self.frames.len()
    }

    pub fn new() -> (r: Evaluator<'a>)
        ensures
            r.wf(),
            r.state() == initial_state(),
    {
        let mut frames: Vec<Frame<'a>> = Vec::new();
        frames.push(Frame { vars: Vec::new(), parent: None });
        let r = Evaluator { frames, env: 0, errors: Vec::new() };
        assert(r.state().frames[0].vars =~= Seq::<(Seq<char>, Val)>::empty());
        assert(r.state().frames =~= initial_state().frames);
        assert(r.state().errors =~= initial_state().errors);
        r
    }

    /// Evaluates a program statement by statement in the active scope.
    /// The result is the value of the last statement that gave one, or the
    /// value of a top-level `return`; error values are added to `errors`.
    pub fn eval(&mut self, program: &'a Program) -> (r: Option<Object<'a>>)
        requires
            old(self).wf(),
        ensures
            final(self).wf(),
            (final(self).state(), opt_v(r)) == run(old(self).state(), *program),
            !(r matches Some(Object::Return(_))),
    {
        self.eval_block_statement(program, MAX_CALL_DEPTH, true)
    }

    fn report(&mut self, m: Vec<char>)
        ensures
            final(self).frames == old(self).frames,
            final(self).env == old(self).env,
            final(self).state() == report(old(self).state(), m@),
    {
        self.errors.push(m);
        assert(self.state().errors =~= old(self).state().errors.push(m@));
    }

    fn bind_local(&mut self, name: Vec<char>, v: Object<'a>)
        requires
            old(self).wf(),
        ensures
            final(self).wf(),
            final(self).frames.len() == old(self).frames.len(),
            final(self).state() == bind(old(self).state(), name@, obj_v(v)),
    {
        let ghost s0 = self.state();
        let ghost old_vars = self.frames@[self.env as int].vars@;
        let env = self.env;
        self.frames[env].vars.push((name, v));
        proof {
            let f = |p: (Vec<char>, Object<'a>)| var_v(p);
            assert(old_vars.push((name, v)).map_values(f) =~= old_vars.map_values(f).push(
                (name@, obj_v(v)),
            ));
            assert(self.state().frames =~= bind(s0, name@, obj_v(v)).frames);
        }
    }

    fn lookup(&self, name: &Vec<char>) -> (r: Option<Object<'a>>)
        ensures
            opt_v(r) == lookup(self.state().frames, self.env as int, name@),
    {
        let ghost fs = self.state().frames;
        let mut i = self.env;
        loop
            invariant
                fs == self.state().frames,
                lookup(fs, self.env as int, name@) == lookup(fs, i as int, name@),
            decreases i,
        {
            if i >= self.frames.len() {
                return None;
            }
            let vars = &self.frames[i].vars;
            let ghost vv = fs[i as int].vars;
            assert(vv == vars@.map_values(|p: (Vec<char>, Object<'a>)| var_v(p)));
            let mut k = vars.len();
            while k > 0
                invariant
                    k <= vars.len() == vv.len(),
                    fs == self.state().frames,
                    i < self.frames.len(),
                    vv == fs[i as int].vars,
                    lookup(fs, self.env as int, name@) == lookup(fs, i as int, name@),
                    vv == vars@.map_values(|p: (Vec<char>, Object<'a>)| var_v(p)),
                    find_var(vv, name@, vv.len() as int) == find_var(vv, name@, k as int),
                decreases k,
            {
                assert(vv[k - 1] == var_v(vars@[k - 1]));
                if chars_eq(&vars[k - 1].0, name) {
                    return Some(vars[k - 1].1.copy());
                }
                k -= 1;
            }
            match self.frames[i].parent {
                Some(p) => if p < i {
                    i = p;
                } else {
                    return None;
                },
                None => {
                    return None;
                },
            }
        }
    }

    fn eval_block_statement(&mut self, b: &'a Vec<Statement>, d: usize, top: bool) -> (r: Option<Object<'a>>)
        requires
            old(self).wf(),
        ensures
            final(self).wf(),
            old(self).frames.len() <= final(self).frames.len(),
            (final(self).state(), opt_v(r)) == ev_block(old(self).state(), d as nat, *b, 0, None, top),
            top ==> !(r matches Some(Object::Return(_))),
        decreases d, *b, 0int,
    {
        let mut acc: Option<Object<'a>> = None;
        let mut i: usize = 0;
        while i < b.len()
            invariant
                i <= b.len(),
                self.wf(),
                old(self).frames.len() <= self.frames.len(),
                top ==> !(acc matches Some(Object::Return(_))),
                ev_block(old(self).state(), d as nat, *b, 0, None, top) == ev_block(
                    self.state(),
                    d as nat,
                    *b,
                    i as int,
                    opt_v(acc),
                    top,
                ),
            decreases b.len() - i,
        {
            proof {
                assert(decreases_to!(*b => b@));
                assert(decreases_to!(b@ => b@[i as int]));
            }
            let r = self.eval_statement(&b[i], d);
            match r {
                Some(Object::Return(v)) => {
                    return Some(
                        if top {
                            strip_return(*v)
                        } else {
                            Object::Return(v)
                        },
                    );
                },
                Some(Object::Error(m)) => {
                    self.report(m);
                },
                Some(v) => {
                    acc = Some(v);
                },
                None => {
                    return Some(error_object("Could not evaluate statement"));
                },
            }
            i += 1;
        }
        acc
    }

    fn eval_statement(&mut self, st: &'a Statement, d: usize) -> (r: Option<Object<'a>>)
        requires
            old(self).wf(),
        ensures
            final(self).wf(),
            old(self).frames.len() <= final(self).frames.len(),
            (final(self).state(), opt_v(r)) == ev_stmt(old(self).state(), d as nat, *st),
        decreases d, *st, 1int,
    {
        match st {
            Statement::Expression { value } => self.eval_expression(value, d),
            Statement::Return { value } => match self.eval_expression(value, d) {
                Some(Object::Return(v)) => Some(Object::Return(v)),
                Some(v) => Some(Object::Return(Box::new(v))),
                None => None,
            },
            Statement::Let { name, value } => match self.eval_expression(value, d) {
                Some(Object::Return(v)) => Some(Object::Return(v)),
                Some(v) => {
                    self.bind_local(copy_chars(&name.value), v);
                    Some(Object::Empty)
                },
                None => None,
            },
            Statement::ReAssign { name, value } => match self.eval_expression(value, d) {
                None => None,
                Some(Object::Return(v)) => Some(Object::Return(v)),
                Some(v) => {
                    if self.lookup(&name.value).is_some() {
                        self.bind_local(copy_chars(&name.value), v);
                        Some(Object::Empty)
                    } else {
                        let mut m = chars_of("Identifier not found: ");
                        push_chars(&mut m, &name.value);
                        Some(Object::Error(m))
                    }
                },
            },
        }
    }

    fn eval_identifier(&self, id: &Identifier) -> (r: Object<'a>)
        ensures
            obj_v(r) == ident_val(self.state(), id.value@),
    {
        match self.lookup(&id.value) {
            Some(v) => v,
            None => match builtin_named(&id.value) {
                Some(b) => Object::BuiltinFunction(b),
                None => {
                    let mut m = chars_of("Identifier not found (eval_identifier): ");
                    push_chars(&mut m, &id.value);
                    Object::Error(m)
                },
            },
        }
    }

    fn eval_expression(&mut self, e: &'a Expression, d: usize) -> (r: Option<Object<'a>>)
        requires
            old(self).wf(),
        ensures
            final(self).wf(),
            old(self).frames.len() <= final(self).frames.len(),
            (final(self).state(), opt_v(r)) == ev_expr(old(self).state(), d as nat, *e),
        decreases d, *e, 1int,
    {
        match e {
            Expression::Literal(l) => match l {
                Literal::Integer(n) => Some(Object::Integer(*n)),
                Literal::Boolean(b) => Some(Object::Boolean(*b)),
                Literal::String(t) => Some(Object::String(copy_chars(t))),
                Literal::Array(v) => match self.eval_array_literal(v, d) {
                    Some(xs) => Some(Object::Array(xs)),
                    None => None,
                },
                Literal::Hash(v) => self.eval_hash_literal(v, d),
            },
            Expression::Identifier(id) => Some(self.eval_identifier(id)),
            Expression::Prefix { operator, right } => match self.eval_expression(right, d) {
                Some(v) => Some(prefix_object(*operator, v)),
                None => None,
            },
            Expression::Infix { left, operator, right } => match self.eval_expression(left, d) {
                None => None,
                Some(lv) => match self.eval_expression(right, d) {
                    Some(rv) => Some(infix_object(*operator, lv, rv)),
                    None => None,
                },
            },
            Expression::If { condition, consequence, alternative } => match self.eval_expression(
                condition,
                d,
            ) {
                None => None,
                Some(Object::Boolean(b)) => if b {
                    self.eval_block_statement(consequence, d, false)
                } else {
                    match alternative {
                        Some(a) => self.eval_block_statement(a, d, false),
                        None => Some(Object::Null),
                    }
                },
                Some(_) => Some(error_object("Use if conditionals on booleans")),
            },
            Expression::FunctionLiteral { parameters, body } => Some(
                Object::Function { parameters, body, env: self.env },
            ),
            Expression::FunctionCall { .. } => self.eval_function_call(e, d),
            Expression::IndexExpression { left, index } => {
                let l = self.eval_expression(left, d);
                let i = self.eval_expression(index, d);
                match (l, i) {
                    (Some(lv), Some(iv)) => Some(index_object(lv, iv)),
                    _ => None,
                }
            },
            Expression::DotNotation { left, right } => match self.eval_expression(left, d) {
                Some(lv) => Some(dot_object(lv, right)),
                None => None,
            },
        }
    }

    fn eval_array_literal(&mut self, v: &'a Vec<Expression>, d: usize) -> (r: Option<Vec<Object<'a>>>)
        requires
            old(self).wf(),
        ensures
            final(self).wf(),
            old(self).frames.len() <= final(self).frames.len(),
            (final(self).state(), match r {
                Some(xs) => Some(objs_v(xs@)),
                None => None,
            }) == ev_list(old(self).state(), d as nat, *v, 0, Seq::empty()),
        decreases d, *v, 0int,
    {
        let mut out: Vec<Object<'a>> = Vec::new();
        let mut i: usize = 0;
        while i < v.len()
            invariant
                i <= v.len(),
                self.wf(),
                old(self).frames.len() <= self.frames.len(),
                ev_list(old(self).state(), d as nat, *v, 0, Seq::empty()) == ev_list(
                    self.state(),
                    d as nat,
                    *v,
                    i as int,
                    objs_v(out@),
                ),
            decreases v.len() - i,
        {
            proof {
                assert(decreases_to!(*v => v@));
                assert(decreases_to!(v@ => v@[i as int]));
            }
            match self.eval_expression(&v[i], d) {
                None => {
                    return None;
                },
                Some(x) => {
                    proof {
                        lemma_objs_v_push(out@, x);
                    }
                    out.push(x);
                },
            }
            i += 1;
        }
        Some(out)
    }

    fn eval_expressions(&mut self, v: &'a Vec<Expression>, d: usize) -> (r: Vec<Object<'a>>)
        requires
            old(self).wf(),
        ensures
            final(self).wf(),
            old(self).frames.len() <= final(self).frames.len(),
            (final(self).state(), objs_v(r@)) == ev_args(
                old(self).state(),
                d as nat,
                *v,
                0,
                Seq::empty(),
            ),
        decreases d, *v, 0int,
    {
        let mut out: Vec<Object<'a>> = Vec::new();
        let mut i: usize = 0;
        while i < v.len()
            invariant
                i <= v.len(),
                self.wf(),
                old(self).frames.len() <= self.frames.len(),
                ev_args(old(self).state(), d as nat, *v, 0, Seq::empty()) == ev_args(
                    self.state(),
                    d as nat,
                    *v,
                    i as int,
                    objs_v(out@),
                ),
            decreases v.len() - i,
        {
            proof {
                assert(decreases_to!(*v => v@));
                assert(decreases_to!(v@ => v@[i as int]));
            }
            let x = match self.eval_expression(&v[i], d) {
                Some(x) => x,
                None => Object::Null,
            };
            proof {
                lemma_objs_v_push(out@, x);
            }
            out.push(x);
            i += 1;
        }
        out
    }

    fn eval_hash_literal(&mut self, v: &'a Vec<(Expression, Expression)>, d: usize) -> (r: Option<
        Object<'a>,
    >)
        requires
            old(self).wf(),
        ensures
            final(self).wf(),
            old(self).frames.len() <= final(self).frames.len(),
            (final(self).state(), opt_v(r)) == ev_hash(
                old(self).state(),
                d as nat,
                *v,
                0,
                Seq::empty(),
            ),
        decreases d, *v, 0int,
    {
        let mut out: Vec<(Object<'a>, Object<'a>)> = Vec::new();
        let mut i: usize = 0;
        while i < v.len()
            invariant
                i <= v.len(),
                self.wf(),
                old(self).frames.len() <= self.frames.len(),
                ev_hash(old(self).state(), d as nat, *v, 0, Seq::empty()) == ev_hash(
                    self.state(),
                    d as nat,
                    *v,
                    i as int,
                    opairs_v(out@),
                ),
            decreases v.len() - i,
        {
            proof {
                assert(decreases_to!(*v => v@));
                assert(decreases_to!(v@ => v@[i as int]));
                assert(decreases_to!(v@[i as int] => v@[i as int].0));
                assert(decreases_to!(v@[i as int] => v@[i as int].1));
            }
            let k = match self.eval_expression(&v[i].0, d) {
                None => {
                    return None;
                },
                Some(k) => k,
            };
            match k {
                Object::String(_) => {},
                _ => {
                    return Some(error_object("Hash keys must be strings"));
                },
            }
            let x = match self.eval_expression(&v[i].1, d) {
                None => {
                    return None;
                },
                Some(x) => x,
            };
            proof {
                lemma_opairs_v_push(out@, (k, x));
            }
            out.push((k, x));
            i += 1;
        }
        Some(Object::Hash(out))
    }

    fn bind_params(params: &Vec<Identifier>, args: Vec<Object<'a>>) -> (r: Vec<(Vec<char>, Object<'a>)>)
        requires
            params.len() == args.len(),
        ensures
            r@.map_values(|p: (Vec<char>, Object<'a>)| var_v(p)) == bind_params(
                params@,
                objs_v(args@),
            ),
    {
        proof {
            lemma_objs_v_len(args@);
        }
        let ghost av = objs_v(args@);
        let ghost orig = args@;
        let mut rest = args;
        let mut out: Vec<(Vec<char>, Object<'a>)> = Vec::new();
        let mut i: usize = 0;
        while i < params.len()
            invariant
                i <= params.len() == orig.len() == av.len(),
                rest@ == orig.subrange(i as int, orig.len() as int),
                out.len() == i,
                forall|j: int| 0 <= j < orig.len() ==> av[j] == obj_v(#[trigger] orig[j]),
                forall|j: int|
                    0 <= j < i ==> #[trigger] var_v(out@[j]) == (params@[j].value@, av[j]),
            decreases params.len() - i,
        {
            let x = rest.remove(0);
            assert(x == orig[i as int]);
            out.push((copy_chars(&params[i].value), x));
            i += 1;
            assert(rest@ =~= orig.subrange(i as int, orig.len() as int));
        }
        assert(out@.map_values(|p: (Vec<char>, Object<'a>)| var_v(p)) =~= bind_params(
            params@,
            av,
        ));
        out
    }

    fn eval_function_call(&mut self, e: &'a Expression, d: usize) -> (r: Option<Object<'a>>)
        requires
            old(self).wf(),
        ensures
            final(self).wf(),
            old(self).frames.len() <= final(self).frames.len(),
            (final(self).state(), opt_v(r)) == ev_call(old(self).state(), d as nat, *e),
        decreases d, *e, 0int,
    {
        match e {
            Expression::FunctionCall { function, arguments } => {
                let f = match self.eval_expression(function, d) {
                    Some(f) => f,
                    None => {
                        return None;
                    },
                };
                let args = self.eval_expressions(arguments, d);
                proof {
                    lemma_objs_v_len(args@);
                }
                match f {
                    Object::Function { parameters, body, env } => {
                        if args.len() != parameters.len() {
                            let mut m = chars_of("Wrong number of arguments. Expected ");
                            push_nat(&mut m, parameters.len() as u64);
                            let mid = chars_of(", got ");
                            push_chars(&mut m, &mid);
                            push_nat(&mut m, args.len() as u64);
                            assert(m@ =~= arity_msg(parameters@.len(), args@.len()));
                            return Some(Object::Error(m));
                        }
                        if d == 0 {
                            return Some(error_object("Maximum call depth exceeded"));
                        }
                        let ghost argv = objs_v(args@);
                        let vars = Self::bind_params(parameters, args);
                        let ghost s2 = self.state();
                        let saved = self.env;
                        let idx = self.frames.len();
                        self.frames.push(Frame { vars, parent: Some(env) });
                        self.env = idx;
                        assert(self.state().frames =~= s2.frames.push(
                            FrameV { vars: bind_params(parameters@, argv), parent: Some(env) },
                        ));
                        let r = self.eval_block_statement(body, d - 1, false);
                        self.env = saved;
                        match r {
                            Some(v) => Some(strip_return(v)),
                            None => None,
                        }
                    },
                    Object::BuiltinFunction(b) => Some(call_builtin(b, args)),
                    other => {
                        let mut m = chars_of("Not a function: ");
                        let t = render_value(&other);
                        push_chars(&mut m, &t);
                        Some(Object::Error(m))
                    },
                }
            },
            _ => None,
        }
    }
}

} // verus!
