use vstd::prelude::*;

use crate::ast::{Expression, Identifier, Literal, PrefixOp, Statement};
use crate::eval::{
    arity_msg, report, strip,
    bind_params, ev_args, ev_block, ev_call, ev_expr, ev_stmt, find_var, lookup, FrameV, State,
};
use crate::object::Val;
use crate::ast::InfixOp;
use crate::ops::{hash_get, index_val, infix_val};

verus! {

/// An integer literal evaluates to its integer, and its negation to the
/// negated integer, in any state and leaving the state as it is.
pub proof fn law_integer_literal(s: State, d: nat, n: i64)
    ensures
        ev_expr(s, d, Expression::Literal(Literal::Integer(n))) == (s, Some(Val::Integer(n))),
        n != i64::MIN ==> ev_expr(
            s,
            d,
            Expression::Prefix {
                operator: PrefixOp::Minus,
                right: Box::new(Expression::Literal(Literal::Integer(n))),
            },
        ) == (s, Some(Val::Integer((-n) as i64))),
{
    let lit = Expression::Literal(Literal::Integer(n));
    assert(ev_expr(s, d, lit) == (s, Some(Val::Integer(n))));
}

/// `!b` evaluates to the negation of `b`, and `!!b` to `b`.
pub proof fn law_boolean_negation(s: State, d: nat, b: bool)
    ensures
        ev_expr(
            s,
            d,
            Expression::Prefix {
                operator: PrefixOp::Bang,
                right: Box::new(Expression::Literal(Literal::Boolean(b))),
            },
        ) == (s, Some(Val::Boolean(!b))),
        ev_expr(
            s,
            d,
            Expression::Prefix {
                operator: PrefixOp::Bang,
                right: Box::new(
                    Expression::Prefix {
                        operator: PrefixOp::Bang,
                        right: Box::new(Expression::Literal(Literal::Boolean(b))),
                    },
                ),
            },
        ) == (s, Some(Val::Boolean(b))),
{
    let lit = Expression::Literal(Literal::Boolean(b));
    assert(ev_expr(s, d, lit) == (s, Some(Val::Boolean(b))));
    let inner = Expression::Prefix { operator: PrefixOp::Bang, right: Box::new(lit) };
    assert(ev_expr(s, d, inner) == (s, Some(Val::Boolean(!b))));
}

/// A hash with the string key `k` gives back the value stored under it, and
/// `Null` for any other string key.
pub proof fn law_hash_round_trip(k: Seq<char>, v: Val, other: Seq<char>)
    ensures
        index_val(Val::Hash(seq![(Val::Str(k), v)]), Val::Str(k)) == v,
        other != k ==> index_val(Val::Hash(seq![(Val::Str(k), v)]), Val::Str(other)) == Val::Null,
{
    let h = seq![(Val::Str(k), v)];
    assert(h[0].0 == Val::Str(k));
    if other != k {
        assert(h[0].0 != Val::Str(other));
        assert(hash_get(h, other, 1) == Val::Null);
    }
}

proof fn lemma_args_len(s: State, d: nat, v: Vec<Expression>, i: int, acc: Seq<Val>)
    requires
        0 <= i <= v.len(),
    ensures
        ev_args(s, d, v, i, acc).1.len() == acc.len() + v.len() - i,
    decreases v.len() - i,
{
    if i < v.len() {
        let (s1, r) = ev_expr(s, d, v[i]);
        let x = match r {
            Some(x) => x,
            None => Val::Null,
        };
        lemma_args_len(s1, d, v, i + 1, acc.push(x));
    }
}

/// Calling a function with a number of arguments other than its number of
/// parameters gives the error value that names both numbers; no scope is
/// made and the body is not run.
pub proof fn law_arity_mismatch(s: State, d: nat, e: Expression)
    requires
        e is FunctionCall,
        ev_expr(s, d, *e->FunctionCall_function).1 matches Some(Val::Function(params, body, env))
            && params.len() != e->FunctionCall_arguments.len(),
    ensures
        ev_expr(s, d, e).1 == Some(
            Val::Error(
                arity_msg(
                    ev_expr(s, d, *e->FunctionCall_function).1->0->Function_0@.len(),
                    e->FunctionCall_arguments@.len(),
                ),
            ),
        ),
        ev_expr(s, d, e).0.frames.len() == ev_args(
            ev_expr(s, d, *e->FunctionCall_function).0,
            d,
            e->FunctionCall_arguments,
            0,
            Seq::empty(),
        ).0.frames.len(),
        ev_expr(s, d, e).0.env == ev_args(
            ev_expr(s, d, *e->FunctionCall_function).0,
            d,
            e->FunctionCall_arguments,
            0,
            Seq::empty(),
        ).0.env,
{
    let (s1, f) = ev_expr(s, d, *e->FunctionCall_function);
    lemma_args_len(s1, d, e->FunctionCall_arguments, 0, Seq::empty());
    assert(ev_expr(s, d, e) == ev_call(s, d, e));
}

/// A statement that returns ends its block: the statements after it are not
/// run, and the block's value is the wrapped return value, which the
/// enclosing blocks pass on in the same way; the top level unwraps it.
pub proof fn law_return_stops(
    s: State,
    d: nat,
    b: Vec<Statement>,
    i: int,
    acc: Option<Val>,
    v: Val,
)
    requires
        0 <= i < b.len(),
        ev_stmt(s, d, b[i]).1 == Some(Val::Return(Box::new(v))),
    ensures
        ev_block(s, d, b, i, acc, false) == (ev_stmt(s, d, b[i]).0, Some(
            Val::Return(Box::new(v)),
        )),
        ev_block(s, d, b, i, acc, true) == (ev_stmt(s, d, b[i]).0, Some(strip(v))),
{
}

proof fn lemma_lookup_push(frames: Seq<FrameV>, f: FrameV, i: int, x: Seq<char>)
    requires
        0 <= i < frames.len(),
    ensures
        lookup(frames.push(f), i, x) == lookup(frames, i, x),
    decreases i,
{
    assert(frames.push(f)[i] == frames[i]);
    if find_var(frames[i].vars, x, frames[i].vars.len() as int) is None {
        match frames[i].parent {
            Some(p) => if p < i {
                lemma_lookup_push(frames, f, p as int, x);
            },
            None => {},
        }
    }
}

proof fn lemma_not_a_parameter(params: Seq<Identifier>, args: Seq<Val>, x: Seq<char>, n: int)
    requires
        0 <= n <= params.len(),
        forall|j: int| 0 <= j < params.len() ==> #[trigger] params[j].value@ != x,
    ensures
        find_var(bind_params(params, args), x, n) is None,
    decreases n,
{
    if n > 0 {
        assert(bind_params(params, args)[n - 1].0 == params[n - 1].value@);
        lemma_not_a_parameter(params, args, x, n - 1);
    }
}

/// A called function reads a name that is not one of its parameters from
/// the scope it captured, as that scope is at the time of the call: the
/// scope of a call is a new one whose parent is the captured scope, so the
/// closure sees every binding made there after it was defined.
pub proof fn law_closure_reads_current_scope(
    s: State,
    params: Seq<Identifier>,
    args: Seq<Val>,
    env: usize,
    x: Seq<char>,
)
    requires
        env < s.frames.len(),
        forall|j: int| 0 <= j < params.len() ==> #[trigger] params[j].value@ != x,
    ensures
        lookup(
            s.frames.push(FrameV { vars: bind_params(params, args), parent: Some(env) }),
            s.frames.len() as int,
            x,
        ) == lookup(s.frames, env as int, x),
{
    let f = FrameV { vars: bind_params(params, args), parent: Some(env) };
    let fs = s.frames.push(f);
    assert(fs[s.frames.len() as int] == f);
    lemma_not_a_parameter(params, args, x, params.len() as int);
    lemma_lookup_push(s.frames, f, env as int, x);
}

/// Joining strings with `+` is associative: both groupings of three strings
/// give the same string, their concatenation.
pub proof fn law_concat_associative(a: Seq<char>, b: Seq<char>, c: Seq<char>)
    ensures
        infix_val(InfixOp::Add, infix_val(InfixOp::Add, Val::Str(a), Val::Str(b)), Val::Str(c))
            == Val::Str(a + b + c),
        infix_val(InfixOp::Add, Val::Str(a), infix_val(InfixOp::Add, Val::Str(b), Val::Str(c)))
            == Val::Str(a + b + c),
{
    assert(a + (b + c) =~= a + b + c);
}

/// Indexing an array: `0 <= n < len` gives element `n`, `-len <= n < 0` gives
/// element `len + n` (so `-1` is the last), and any other index gives `Null`.
pub proof fn law_array_index(a: Seq<Val>, n: i64)
    ensures
        0 <= n < a.len() ==> index_val(Val::Array(a), Val::Integer(n)) == a[n as int],
        -a.len() <= n < 0 ==> index_val(Val::Array(a), Val::Integer(n)) == a[a.len() + n],
        (n >= a.len() || n < -a.len()) ==> index_val(Val::Array(a), Val::Integer(n)) == Val::Null,
{
}

/// A function literal evaluates to a closure over the active scope itself,
/// named by its index rather than copied, and leaves the state as it is; so
/// the closure later reads whatever that scope then binds.
pub proof fn law_closure_captures_active_scope(
    s: State,
    d: nat,
    parameters: Vec<Identifier>,
    body: Vec<Statement>,
)
    ensures
        ev_expr(s, d, Expression::FunctionLiteral { parameters, body }) == (
            s,
            Some(Val::Function(parameters, body, s.env)),
        ),
{
}

/// The state after one statement of a block, with its error reported when
/// its value is an error.
pub open spec fn after_stmt(s: State, d: nat, st: Statement) -> State {
    match ev_stmt(s, d, st).1 {
        Some(Val::Error(m)) => report(ev_stmt(s, d, st).0, m),
        _ => ev_stmt(s, d, st).0,
    }
}

proof fn lemma_return_from(
    ss: Seq<State>,
    d: nat,
    b: Vec<Statement>,
    k: int,
    v: Val,
    j: int,
    acc: Option<Val>,
)
    requires
        0 <= j <= k < b.len(),
        ss.len() == k + 1,
        forall|i: int|
            0 <= i < k ==> ((#[trigger] ev_stmt(ss[i], d, b[i])).1 matches Some(x) && !(x is Return)),
        forall|i: int| 0 <= i < k ==> ss[i + 1] == #[trigger] after_stmt(ss[i], d, b[i]),
        ev_stmt(ss[k], d, b[k]).1 == Some(Val::Return(Box::new(v))),
    ensures
        ev_block(ss[j], d, b, j, acc, false) == (ev_stmt(ss[k], d, b[k]).0, Some(
            Val::Return(Box::new(v)),
        )),
    decreases k - j,
{
    if j < k {
        let r = ev_stmt(ss[j], d, b[j]);
        assert(ss[j + 1] == after_stmt(ss[j], d, b[j]));
        match r.1 {
            Some(Val::Error(m)) => lemma_return_from(ss, d, b, k, v, j + 1, acc),
            Some(x) => lemma_return_from(ss, d, b, k, v, j + 1, Some(x)),
            None => {},
        }
    }
}

/// A block runs its statements in order from its start; at the first one
/// that returns it stops, so the statements after it have no effect, and its
/// value is the wrapped return value. `ss` are the states before each
/// statement up to the one that returns.
pub proof fn law_block_returns(ss: Seq<State>, d: nat, b: Vec<Statement>, k: int, v: Val)
    requires
        0 <= k < b.len(),
        ss.len() == k + 1,
        forall|i: int|
            0 <= i < k ==> ((#[trigger] ev_stmt(ss[i], d, b[i])).1 matches Some(x) && !(x is Return)),
        forall|i: int| 0 <= i < k ==> ss[i + 1] == #[trigger] after_stmt(ss[i], d, b[i]),
        ev_stmt(ss[k], d, b[k]).1 == Some(Val::Return(Box::new(v))),
    ensures
        ev_block(ss[0], d, b, 0, None, false) == (ev_stmt(ss[k], d, b[k]).0, Some(
            Val::Return(Box::new(v)),
        )),
{
    lemma_return_from(ss, d, b, k, v, 0, None);
}

} // verus!
