use vstd::prelude::*;

use crate::ast::{Expression, InfixOp, PrefixOp};
use crate::lexer::chars_of;
use crate::object::{
    chars_eq, lemma_objs_v_len, lemma_opairs_v_len, obj_v, objs_v, opairs_v, Builtin, Object, Val,
};
use crate::show::{int_text, push_chars, push_nat};

verus! {

pub open spec fn fits_i64(x: int) -> bool {
    i64::MIN <= x <= i64::MAX
}

/// The result of `op right`.
pub open spec fn prefix_val(op: PrefixOp, v: Val) -> Val {
    match op {
        PrefixOp::Bang => match v {
            Val::Boolean(b) => Val::Boolean(!b),
            _ => Val::Error("Use ! prefix operator on booleans!"@),
        },
        PrefixOp::Minus => match v {
            Val::Integer(n) => if fits_i64(-n) {
                Val::Integer((-n) as i64)
            } else {
                Val::Error("Integer overflow"@)
            },
            _ => Val::Error("Use - prefix operator on integers or floats"@),
        },
    }
}

pub open spec fn infix_text(op: InfixOp) -> Seq<char> {
    match op {
        InfixOp::Add => "+"@,
        InfixOp::Sub => "-"@,
        InfixOp::Mul => "*"@,
        InfixOp::Div => "/"@,
        InfixOp::Lt => "<"@,
        InfixOp::Gt => ">"@,
        InfixOp::Eq => "=="@,
        InfixOp::NotEq => "!="@,
        InfixOp::Assign => "="@,
    }
}

pub open spec fn invalid_op(op: InfixOp) -> Val {
    Val::Error("Invalid operator: "@ + infix_text(op))
}

pub open spec fn abs(x: int) -> int {
    if x < 0 {
        -x
    } else {
        x
    }
}

/// Integer division that rounds toward zero.
pub open spec fn trunc_div(a: int, b: int) -> int {
    if (a < 0) != (b < 0) {
        -(abs(a) / abs(b))
    } else {
        abs(a) / abs(b)
    }
}

pub open spec fn checked(x: int) -> Val {
    if fits_i64(x) {
        Val::Integer(x as i64)
    } else {
        Val::Error("Integer overflow"@)
    }
}

/// Integer arithmetic and comparison. A result outside `i64`, and a division
/// by zero, is an error.
pub open spec fn int_infix(op: InfixOp, a: i64, b: i64) -> Val {
    match op {
        InfixOp::Add => checked(a + b),
        InfixOp::Sub => checked(a - b),
        InfixOp::Mul => checked(a * b),
        InfixOp::Div => if b == 0 {
            Val::Error("Division by zero"@)
        } else {
            checked(trunc_div(a as int, b as int))
        },
        InfixOp::Lt => Val::Boolean(a < b),
        InfixOp::Gt => Val::Boolean(a > b),
        InfixOp::Eq => Val::Boolean(a == b),
        InfixOp::NotEq => Val::Boolean(a != b),
        InfixOp::Assign => invalid_op(op),
    }
}

pub open spec fn bool_infix(op: InfixOp, a: bool, b: bool) -> Val {
    match op {
        InfixOp::Eq => Val::Boolean(a == b),
        InfixOp::NotEq => Val::Boolean(a != b),
        _ => invalid_op(op),
    }
}

pub open spec fn str_infix(op: InfixOp, a: Seq<char>, b: Seq<char>) -> Val {
    match op {
        InfixOp::Add => Val::Str(a + b),
        InfixOp::Eq => Val::Boolean(a == b),
        InfixOp::NotEq => Val::Boolean(a != b),
        _ => invalid_op(op),
    }
}

/// The result of `l op r` on two evaluated operands.
pub open spec fn infix_val(op: InfixOp, l: Val, r: Val) -> Val {
    match (l, r) {
        (Val::Integer(a), Val::Integer(b)) => int_infix(op, a, b),
        (Val::Boolean(a), Val::Boolean(b)) => bool_infix(op, a, b),
        (Val::Str(a), Val::Str(b)) => str_infix(op, a, b),
        _ => Val::Error("Use infix operators on integers"@),
    }
}

/// The position that index `n` names in a sequence of length `len`:
/// a negative index counts from the end.
pub open spec fn slot(len: int, n: int) -> Option<int> {
    if n < 0 {
        if len + n >= 0 {
            Some(len + n)
        } else {
            None
        }
    } else if n < len {
        Some(n)
    } else {
        None
    }
}

/// The value stored under the string key `k` from pair `i` on, or `Null`.
pub open spec fn hash_get(h: Seq<(Val, Val)>, k: Seq<char>, i: int) -> Val
    decreases h.len() - i,
{
    if 0 <= i < h.len() {
        if h[i].0 == Val::Str(k) {
            h[i].1
        } else {
            hash_get(h, k, i + 1)
        }
    } else {
        Val::Null
    }
}

/// The result of `l[i]`. Out of range an index gives `Null`.
pub open spec fn index_val(l: Val, i: Val) -> Val {
    match (l, i) {
        (Val::Array(a), Val::Integer(n)) => match slot(a.len() as int, n as int) {
            Some(k) => a[k],
            None => Val::Null,
        },
        (Val::Str(s), Val::Integer(n)) => match slot(s.len() as int, n as int) {
            Some(k) => Val::Str(seq![s[k]]),
            None => Val::Null,
        },
        (Val::Hash(h), Val::Str(k)) => hash_get(h, k, 0),
        _ => Val::Error("Use index expression on arrays or strings"@),
    }
}

/// The name on the right of a dot: `s.name` or `s.name(..)`.
pub open spec fn dot_name(right: Expression) -> Option<Seq<char>> {
    match right {
        Expression::Identifier(id) => Some(id.value@),
        Expression::FunctionCall { function, arguments } => match *function {
            Expression::Identifier(id) => Some(id.value@),
            _ => None,
        },
        _ => None,
    }
}

pub open spec fn len_name() -> Seq<char> {
    seq!['l', 'e', 'n']
}

/// The properties that strings answer to through a dot.
pub open spec fn str_prop(s: Seq<char>, name: Seq<char>) -> Val {
    if name == len_name() {
        Val::Integer(s.len() as i64)
    } else {
        Val::Error("Unknown string property: "@ + name)
    }
}

/// The result of `l.right`.
pub open spec fn dot_val(l: Val, right: Expression) -> Val {
    match l {
        Val::Hash(h) => match right {
            Expression::Identifier(id) => hash_get(h, id.value@, 0),
            _ => Val::Error("Use dot notation on hashes with a name"@),
        },
        Val::Str(s) => match dot_name(right) {
            Some(name) => str_prop(s, name),
            None => Val::Error("Use dot notation on strings"@),
        },
        _ => Val::Error("Use dot notation properly"@),
    }
}

/// The builtin that a name stands for, if any.
pub open spec fn builtin_of(name: Seq<char>) -> Option<Builtin> {
    if name == len_name() {
        Some(Builtin::Len)
    } else {
        None
    }
}

pub open spec fn kind_name(v: Val) -> Seq<char> {
    match v {
        Val::Integer(_) => "Integer"@,
        Val::Boolean(_) => "Boolean"@,
        Val::Str(_) => "String"@,
        Val::Array(_) => "Array"@,
        Val::Hash(_) => "Hash"@,
        Val::Function(_, _, _) => "Function"@,
        Val::Builtin(_) => "Builtin"@,
        Val::Return(_) => "Return"@,
        Val::Error(_) => "Error"@,
        Val::Empty => "Empty"@,
        Val::Null => "Null"@,
    }
}

/// The result of calling a builtin on evaluated arguments.
pub open spec fn builtin_val(b: Builtin, args: Seq<Val>) -> Val {
    match b {
        Builtin::Len => if args.len() != 1 {
            Val::Error(
                "Wrong number of arguments. Got "@ + int_text(args.len() as int) + ", expected 1"@,
            )
        } else {
            match args[0] {
                Val::Str(s) => Val::Integer(s.len() as i64),
                Val::Array(a) => Val::Integer(a.len() as i64),
                v => Val::Error("Argument to `len` not supported, got "@ + kind_name(v)),
            }
        },
    }
}

/// An error value with the given message.
pub fn error_object(msg: &str) -> (r: Object<'static>)
    ensures
        obj_v(r) == Val::Error(msg@),
{
    Object::Error(chars_of(msg))
}

/// `op right` on an evaluated operand.
pub fn prefix_object<'a>(op: PrefixOp, v: Object<'a>) -> (r: Object<'a>)
    ensures
        obj_v(r) == prefix_val(op, obj_v(v)),
{
    match op {
        PrefixOp::Bang => match v {
            Object::Boolean(b) => Object::Boolean(!b),
            _ => error_object("Use ! prefix operator on booleans!"),
        },
        PrefixOp::Minus => match v {
            Object::Integer(n) => if n == i64::MIN {
                error_object("Integer overflow")
            } else {
                Object::Integer(-n)
            },
            _ => error_object("Use - prefix operator on integers or floats"),
        },
    }
}

fn infix_chars(op: InfixOp) -> (r: Vec<char>)
    ensures
        r@ == infix_text(op),
{
    match op {
        InfixOp::Add => chars_of("+"),
        InfixOp::Sub => chars_of("-"),
        InfixOp::Mul => chars_of("*"),
        InfixOp::Div => chars_of("/"),
        InfixOp::Lt => chars_of("<"),
        InfixOp::Gt => chars_of(">"),
        InfixOp::Eq => chars_of("=="),
        InfixOp::NotEq => chars_of("!="),
        InfixOp::Assign => chars_of("="),
    }
}

fn invalid_operator(op: InfixOp) -> (r: Object<'static>)
    ensures
        obj_v(r) == invalid_op(op),
{
    let mut m = chars_of("Invalid operator: ");
    let t = infix_chars(op);
    push_chars(&mut m, &t);
    Object::Error(m)
}

proof fn lemma_product_bound(a: int, b: int)
    requires
        i64::MIN <= a <= i64::MAX,
        i64::MIN <= b <= i64::MAX,
    ensures
        i128::MIN <= a * b <= i128::MAX,
{
    assert(-0x8000_0000_0000_0000 * 0x8000_0000_0000_0000 <= a * b <= 0x8000_0000_0000_0000
        * 0x8000_0000_0000_0000) by (nonlinear_arith)
        requires
            -0x8000_0000_0000_0000 <= a <= 0x8000_0000_0000_0000,
            -0x8000_0000_0000_0000 <= b <= 0x8000_0000_0000_0000,
    ;
}

fn checked_object(x: i128) -> (r: Object<'static>)
    ensures
        obj_v(r) == checked(x as int),
{
    if x < i64::MIN as i128 || x > i64::MAX as i128 {
        error_object("Integer overflow")
    } else {
        Object::Integer(x as i64)
    }
}

/// Integer arithmetic and comparison on two integers.
pub fn int_infix_object(op: InfixOp, a: i64, b: i64) -> (r: Object<'static>)
    ensures
        obj_v(r) == int_infix(op, a, b),
{
    match op {
        InfixOp::Add => checked_object(a as i128 + b as i128),
        InfixOp::Sub => checked_object(a as i128 - b as i128),
        InfixOp::Mul => {
            proof {
                lemma_product_bound(a as int, b as int);
            }
            checked_object(a as i128 * b as i128)
        },
        InfixOp::Div => if b == 0 {
            error_object("Division by zero")
        } else {
            let ua: u128 = if a < 0 {
                (-(a as i128)) as u128
            } else {
                a as u128
            };
            let ub: u128 = if b < 0 {
                (-(b as i128)) as u128
            } else {
                b as u128
            };
            let q = ua / ub;
            assert(q <= ua) by (nonlinear_arith)
                requires
                    q == ua / ub,
                    ub >= 1,
            ;
            let s: i128 = if (a < 0) != (b < 0) {
                -(q as i128)
            } else {
                q as i128
            };
            checked_object(s)
        },
        InfixOp::Lt => Object::Boolean(a < b),
        InfixOp::Gt => Object::Boolean(a > b),
        InfixOp::Eq => Object::Boolean(a == b),
        InfixOp::NotEq => Object::Boolean(a != b),
        InfixOp::Assign => invalid_operator(op),
    }
}

/// `l op r` on two evaluated operands.
pub fn infix_object<'a>(op: InfixOp, l: Object<'a>, r: Object<'a>) -> (res: Object<'a>)
    ensures
        obj_v(res) == infix_val(op, obj_v(l), obj_v(r)),
{
    match (l, r) {
        (Object::Integer(a), Object::Integer(b)) => int_infix_object(op, a, b),
        (Object::Boolean(a), Object::Boolean(b)) => match op {
            InfixOp::Eq => Object::Boolean(a == b),
            InfixOp::NotEq => Object::Boolean(a != b),
            _ => invalid_operator(op),
        },
        (Object::String(a), Object::String(b)) => match op {
            InfixOp::Add => {
                let mut s = a;
                push_chars(&mut s, &b);
                Object::String(s)
            },
            InfixOp::Eq => Object::Boolean(chars_eq(&a, &b)),
            InfixOp::NotEq => Object::Boolean(!chars_eq(&a, &b)),
            _ => invalid_operator(op),
        },
        _ => error_object("Use infix operators on integers"),
    }
}

fn slot_of(len: usize, n: i64) -> (r: Option<usize>)
    ensures
        match slot(len as int, n as int) {
            Some(k) => r == Some(k as usize),
            None => r is None,
        },
{
    if n < 0 {
        let back: u128 = (-(n as i128)) as u128;
        if back <= len as u128 {
            Some((len as u128 - back) as usize)
        } else {
            None
        }
    } else if (n as u128) < (len as u128) {
        Some(n as usize)
    } else {
        None
    }
}

/// The value stored under the string key `k`, or `Null`.
pub fn hash_get_object<'a>(pairs: Vec<(Object<'a>, Object<'a>)>, k: &Vec<char>) -> (r: Object<'a>)
    ensures
        obj_v(r) == hash_get(opairs_v(pairs@), k@, 0),
{
    proof {
        lemma_opairs_v_len(pairs@);
    }
    let mut h = pairs;
    let ghost hv = opairs_v(h@);
    let mut i: usize = 0;
    while i < h.len()
        invariant
            i <= h.len() == hv.len(),
            hv == opairs_v(pairs@),
            forall|j: int| 0 <= j < hv.len() ==> hv[j] == (obj_v(#[trigger] h@[j].0), obj_v(h@[j].1)),
            hash_get(hv, k@, 0) == hash_get(hv, k@, i as int),
        decreases h.len() - i,
    {
        let hit = match &h[i].0 {
            Object::String(s) => chars_eq(s, k),
            _ => false,
        };
        assert(hv[i as int] == (obj_v(h@[i as int].0), obj_v(h@[i as int].1)));
        if hit {
            assert(hv[i as int].0 == Val::Str(k@));
            let ghost before = h@;
            let pair = h.swap_remove(i);
            assert(pair == before[i as int]);
            assert(obj_v(pair.1) == hv[i as int].1);
            assert(hash_get(hv, k@, i as int) == hv[i as int].1);
            return pair.1;
        }
        assert(hv[i as int].0 != Val::Str(k@));
        i += 1;
    }
    Object::Null
}

/// `l[i]` on evaluated operands.
pub fn index_object<'a>(l: Object<'a>, i: Object<'a>) -> (r: Object<'a>)
    ensures
        obj_v(r) == index_val(obj_v(l), obj_v(i)),
{
    match (l, i) {
        (Object::Array(a), Object::Integer(n)) => {
            proof {
                lemma_objs_v_len(a@);
            }
            match slot_of(a.len(), n) {
                Some(k) => {
                    let mut a = a;
                    a.swap_remove(k)
                },
                None => Object::Null,
            }
        },
        (Object::String(s), Object::Integer(n)) => match slot_of(s.len(), n) {
            Some(k) => {
                let mut c: Vec<char> = Vec::new();
                c.push(s[k]);
                assert(c@ =~= seq![s@[k as int]]);
                Object::String(c)
            },
            None => Object::Null,
        },
        (Object::Hash(h), Object::String(k)) => hash_get_object(h, &k),
        _ => error_object("Use index expression on arrays or strings"),
    }
}

fn is_len_name(name: &Vec<char>) -> (r: bool)
    ensures
        r == (name@ == len_name()),
{
    let r = name.len() == 3 && name[0] == 'l' && name[1] == 'e' && name[2] == 'n';
    if r {
        assert(name@ =~= len_name());
    }
    r
}

/// The builtin that a name stands for, if any.
pub fn builtin_named(name: &Vec<char>) -> (r: Option<Builtin>)
    ensures
        r == builtin_of(name@),
{
    if is_len_name(name) {
        Some(Builtin::Len)
    } else {
        None
    }
}

fn str_prop_object(s: &Vec<char>, name: &Vec<char>) -> (r: Object<'static>)
    ensures
        obj_v(r) == str_prop(s@, name@),
{
    if is_len_name(name) {
        Object::Integer(s.len() as i64)
    } else {
        let mut m = chars_of("Unknown string property: ");
        push_chars(&mut m, name);
        Object::Error(m)
    }
}

/// `l.right` on an evaluated left side.
pub fn dot_object<'a>(l: Object<'a>, right: &Expression) -> (r: Object<'a>)
    ensures
        obj_v(r) == dot_val(obj_v(l), *right),
{
    match l {
        Object::Hash(h) => match right {
            Expression::Identifier(id) => hash_get_object(h, &id.value),
            _ => error_object("Use dot notation on hashes with a name"),
        },
        Object::String(s) => {
            let name = match right {
                Expression::Identifier(id) => Some(&id.value),
                Expression::FunctionCall { function, arguments: _ } => match &**function {
                    Expression::Identifier(id) => Some(&id.value),
                    _ => None,
                },
                _ => None,
            };
            match name {
                Some(n) => str_prop_object(&s, n),
                None => error_object("Use dot notation on strings"),
            }
        },
        _ => error_object("Use dot notation properly"),
    }
}

fn kind_name_chars(v: &Object) -> (r: Vec<char>)
    ensures
        r@ == kind_name(obj_v(*v)),
{
    match v {
        Object::Integer(_) => chars_of("Integer"),
        Object::Boolean(_) => chars_of("Boolean"),
        Object::String(_) => chars_of("String"),
        Object::Array(_) => chars_of("Array"),
        Object::Hash(_) => chars_of("Hash"),
        Object::Function { .. } => chars_of("Function"),
        Object::BuiltinFunction(_) => chars_of("Builtin"),
        Object::Return(_) => chars_of("Return"),
        Object::Error(_) => chars_of("Error"),
        Object::Empty => chars_of("Empty"),
        Object::Null => chars_of("Null"),
    }
}

/// Calls a builtin on evaluated arguments.
pub fn call_builtin<'a>(b: Builtin, args: Vec<Object<'a>>) -> (r: Object<'a>)
    ensures
        obj_v(r) == builtin_val(b, objs_v(args@)),
{
    proof {
        lemma_objs_v_len(args@);
    }
    match b {
        Builtin::Len => if args.len() != 1 {
            let mut m = chars_of("Wrong number of arguments. Got ");
            push_nat(&mut m, args.len() as u64);
            let tail = chars_of(", expected 1");
            push_chars(&mut m, &tail);
            assert(m@ =~= "Wrong number of arguments. Got "@ + int_text(args.len() as int)
                + ", expected 1"@);
            Object::Error(m)
        } else {
            match &args[0] {
                Object::String(s) => Object::Integer(s.len() as i64),
                Object::Array(a) => {
                    proof {
                        lemma_objs_v_len(a@);
                    }
                    Object::Integer(a.len() as i64)
                },
                v => {
                    let mut m = chars_of("Argument to `len` not supported, got ");
                    let t = kind_name_chars(v);
                    push_chars(&mut m, &t);
                    Object::Error(m)
                },
            }
        },
    }
}

} // verus!
