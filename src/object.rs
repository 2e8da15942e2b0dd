use vstd::prelude::*;

use crate::ast::{Identifier, Statement};

verus! {

/// The functions that every program can call without defining them.
#[derive(Debug, Clone, Copy, PartialEq, Eq, Structural)]
pub enum Builtin {
    /// `len(x)`: the number of characters of a string or elements of an array.
    Len,
}

/// A run-time value. A function refers to its parameters and body in the
/// program that defined it, and names its captured environment by index.
#[derive(Debug, PartialEq)]
pub enum Object<'a> {
    Integer(i64),
    Boolean(bool),
    String(Vec<char>),
    Array(Vec<Object<'a>>),
    Hash(Vec<(Object<'a>, Object<'a>)>),
    Function { parameters: &'a Vec<Identifier>, body: &'a Vec<Statement>, env: usize },
    BuiltinFunction(Builtin),
    Return(Box<Object<'a>>),
    Error(Vec<char>),
    Empty,
    Null,
}

/// The mathematical model of a value.
pub enum Val {
    Integer(i64),
    Boolean(bool),
    Str(Seq<char>),
    Array(Seq<Val>),
    Hash(Seq<(Val, Val)>),
    Function(Vec<Identifier>, Vec<Statement>, usize),
    Builtin(Builtin),
    Return(Box<Val>),
    Error(Seq<char>),
    Empty,
    Null,
}

pub open spec fn obj_v(o: Object) -> Val
    decreases o,
{
    match o {
        Object::Integer(n) => Val::Integer(n),
        Object::Boolean(b) => Val::Boolean(b),
        Object::String(s) => Val::Str(s@),
        Object::Array(v) => Val::Array(objs_v(v@)),
        Object::Hash(v) => Val::Hash(opairs_v(v@)),
        Object::Function { parameters, body, env } => Val::Function(*parameters, *body, env),
        Object::BuiltinFunction(b) => Val::Builtin(b),
        Object::Return(b) => Val::Return(Box::new(obj_v(*b))),
        Object::Error(m) => Val::Error(m@),
        Object::Empty => Val::Empty,
        Object::Null => Val::Null,
    }
}

pub open spec fn objs_v(s: Seq<Object>) -> Seq<Val>
    decreases s,
{
    if s.len() == 0 {
        Seq::empty()
    } else {
        objs_v(s.drop_last()).push(obj_v(s.last()))
    }
}

pub open spec fn opairs_v(s: Seq<(Object, Object)>) -> Seq<(Val, Val)>
    decreases s,
{
    if s.len() == 0 {
        Seq::empty()
    } else {
        opairs_v(s.drop_last()).push((obj_v(s.last().0), obj_v(s.last().1)))
    }
}

pub open spec fn opt_v(o: Option<Object>) -> Option<Val> {
    match o {
        Some(x) => Some(obj_v(x)),
        None => None,
    }
}

pub proof fn lemma_objs_v_push(s: Seq<Object>, o: Object)
    ensures
        objs_v(s.push(o)) == objs_v(s).push(obj_v(o)),
{
    assert(s.push(o).drop_last() =~= s);
}

pub proof fn lemma_opairs_v_push(s: Seq<(Object, Object)>, p: (Object, Object))
    ensures
        opairs_v(s.push(p)) == opairs_v(s).push((obj_v(p.0), obj_v(p.1))),
{
    assert(s.push(p).drop_last() =~= s);
}

pub proof fn lemma_objs_v_len(s: Seq<Object>)
    ensures
        objs_v(s).len() == s.len(),
        forall|i: int| 0 <= i < s.len() ==> objs_v(s)[i] == obj_v(#[trigger] s[i]),
    decreases s.len(),
{
    if s.len() > 0 {
        lemma_objs_v_len(s.drop_last());
        assert forall|i: int| 0 <= i < s.len() implies objs_v(s)[i] == obj_v(#[trigger] s[i]) by {
            if i < s.len() - 1 {
                assert(s.drop_last()[i] == s[i]);
            }
        }
    }
}

pub proof fn lemma_opairs_v_len(s: Seq<(Object, Object)>)
    ensures
        opairs_v(s).len() == s.len(),
        forall|i: int|
            0 <= i < s.len() ==> opairs_v(s)[i] == (obj_v(#[trigger] s[i].0), obj_v(s[i].1)),
    decreases s.len(),
{
    if s.len() > 0 {
        lemma_opairs_v_len(s.drop_last());
        assert forall|i: int| 0 <= i < s.len() implies opairs_v(s)[i] == (
            obj_v(#[trigger] s[i].0),
            obj_v(s[i].1),
        ) by {
            if i < s.len() - 1 {
                assert(s.drop_last()[i] == s[i]);
            }
        }
    }
}

/// Whether two character vectors hold the same text.
pub fn chars_eq(a: &Vec<char>, b: &Vec<char>) -> (r: bool)
    ensures
        r == (a@ == b@),
{
    if a.len() != b.len() {
        return false;
    }
    let mut i: usize = 0;
    while i < a.len()
        invariant
            i <= a.len() == b.len(),
            forall|k: int| 0 <= k < i ==> a@[k] == b@[k],
        decreases a.len() - i,
    {
        if a[i] != b[i] {
            return false;
        }
        i += 1;
    }
    assert(a@ =~= b@);
    true
}

impl<'a> Object<'a> {
    /// A copy of the value, equal to it in the model.
    pub fn copy(&self) -> (r: Object<'a>)
        ensures
            obj_v(r) == obj_v(*self),
        decreases *self,
    {
        match self {
            Object::Integer(n) => Object::Integer(*n),
            Object::Boolean(b) => Object::Boolean(*b),
            Object::String(s) => Object::String(crate::lexer::copy_chars(s)),
            Object::Array(v) => {
                let mut out: Vec<Object<'a>> = Vec::new();
                let mut i: usize = 0;
                while i < v.len()
                    invariant
                        i <= v.len(),
                        *self == Object::Array(*v),
                        objs_v(out@) == objs_v(v@.subrange(0, i as int)),
                    decreases v.len() - i,
                {
                    proof {
                        assert(decreases_to!(*self => self->Array_0));
                        assert(decreases_to!(*v => v@));
                        assert(decreases_to!(v@ => v@[i as int]));
                    }
                    let c = v[i].copy();
                    proof {
                        lemma_objs_v_push(out@, c);
                        assert(v@.subrange(0, i + 1).drop_last() =~= v@.subrange(0, i as int));
                    }
                    out.push(c);
                    i += 1;
                }
                assert(v@.subrange(0, v.len() as int) =~= v@);
                Object::Array(out)
            },
            Object::Hash(v) => {
                let mut out: Vec<(Object<'a>, Object<'a>)> = Vec::new();
                let mut i: usize = 0;
                while i < v.len()
                    invariant
                        i <= v.len(),
                        *self == Object::Hash(*v),
                        opairs_v(out@) == opairs_v(v@.subrange(0, i as int)),
                    decreases v.len() - i,
                {
                    proof {
                        assert(decreases_to!(*self => self->Hash_0));
                        assert(decreases_to!(*v => v@));
                        assert(decreases_to!(v@ => v@[i as int]));
                        assert(decreases_to!(v@[i as int] => v@[i as int].0));
                        assert(decreases_to!(v@[i as int] => v@[i as int].1));
                    }
                    let k = v[i].0.copy();
                    let x = v[i].1.copy();
                    proof {
                        lemma_opairs_v_push(out@, (k, x));
                        assert(v@.subrange(0, i + 1).drop_last() =~= v@.subrange(0, i as int));
                    }
                    out.push((k, x));
                    i += 1;
                }
                assert(v@.subrange(0, v.len() as int) =~= v@);
                Object::Hash(out)
            },
            Object::Function { parameters, body, env } => Object::Function {
                parameters: *parameters,
                body: *body,
                env: *env,
            },
            Object::BuiltinFunction(b) => Object::BuiltinFunction(*b),
            Object::Return(b) => Object::Return(Box::new(b.copy())),
            Object::Error(m) => Object::Error(crate::lexer::copy_chars(m)),
            Object::Empty => Object::Empty,
            Object::Null => Object::Null,
        }
    }
}

} // verus!
