use vstd::prelude::*;

use crate::ast::{
    expr_m, exprs_m, lit_m, lemma_exprs_m_push, lemma_pairs_m_push, lemma_stmts_m_push, pairs_m, stmt_m,
    stmts_m, ExprM, Expression, Identifier, InfixOp, LitM, Literal, PrefixOp, Statement, StmtM,
};
use crate::lexer::chars_of;
use crate::object::{
    lemma_objs_v_len, lemma_objs_v_push, lemma_opairs_v_len, lemma_opairs_v_push, obj_v, objs_v,
    opairs_v, Object, Val,
};
use crate::ops::infix_text;
use crate::show::{int_text, push_chars, push_int};

verus! {

pub open spec fn prefix_text(op: PrefixOp) -> Seq<char> {
    match op {
        PrefixOp::Bang => "!"@,
        PrefixOp::Minus => "-"@,
    }
}

/// The text of an expression: literals as they are (strings without quotes),
/// operators fully parenthesised.
pub open spec fn show_expr(e: ExprM) -> Seq<char>
    decreases e,
{
    match e {
        ExprM::Lit(l) => match l {
            LitM::Integer(n) => int_text(n as int),
            LitM::Boolean(b) => if b {
                "true"@
            } else {
                "false"@
            },
            LitM::Str(s) => s,
            LitM::Array(v) => "["@ + show_list(v) + "]"@,
            LitM::Hash(v) => "{"@ + show_pairs(v) + "}"@,
        },
        ExprM::Ident(n) => n,
        ExprM::Prefix(op, r) => "("@ + prefix_text(op) + show_expr(*r) + ")"@,
        ExprM::Infix(l, op, r) => "("@ + show_expr(*l) + " "@ + infix_text(op) + " "@ + show_expr(
            *r,
        ) + ")"@,
        ExprM::If(c, cons, alt) => "("@ + show_expr(*c) + " "@ + "{["@ + show_stmts(cons, ", "@)
            + "]}"@ + match alt {
            Some(a) => " else "@ + "{["@ + show_stmts(a, ", "@) + "]}"@,
            None => Seq::empty(),
        } + ")"@,
        ExprM::Func(ps, body) => "fn("@ + show_names(ps) + ") "@ + "{["@ + show_stmts(
            body,
            ", "@,
        ) + "]}"@,
        ExprM::Call(f, args) => show_expr(*f) + "("@ + show_list(args) + ")"@,
        ExprM::Index(l, i) => "("@ + show_expr(*l) + "["@ + show_expr(*i) + "])"@,
        ExprM::Dot(l, r) => "("@ + show_expr(*l) + "."@ + show_expr(*r) + ")"@,
    }
}

/// Expressions separated by `, `.
pub open spec fn show_list(v: Seq<ExprM>) -> Seq<char>
    decreases v,
{
    if v.len() == 0 {
        Seq::empty()
    } else if v.len() == 1 {
        show_expr(v[0])
    } else {
        show_list(v.drop_last()) + ", "@ + show_expr(v.last())
    }
}

/// `key: value` pairs separated by `, `.
pub open spec fn show_pairs(v: Seq<(ExprM, ExprM)>) -> Seq<char>
    decreases v,
{
    if v.len() == 0 {
        Seq::empty()
    } else if v.len() == 1 {
        show_expr(v[0].0) + ": "@ + show_expr(v[0].1)
    } else {
        show_pairs(v.drop_last()) + ", "@ + show_expr(v.last().0) + ": "@ + show_expr(v.last().1)
    }
}

pub open spec fn show_names(v: Seq<Seq<char>>) -> Seq<char>
    decreases v.len(),
{
    if v.len() == 0 {
        Seq::empty()
    } else if v.len() == 1 {
        v[0]
    } else {
        show_names(v.drop_last()) + ", "@ + v.last()
    }
}

pub open spec fn show_stmt(s: StmtM) -> Seq<char>
    decreases s,
{
    match s {
        StmtM::Let(n, v) => "let "@ + n + " = "@ + show_expr(v) + ";"@,
        StmtM::ReAssign(n, v) => n + " = "@ + show_expr(v) + ";"@,
        StmtM::Return(v) => "return "@ + show_expr(v) + ";"@,
        StmtM::Expr(v) => show_expr(v),
    }
}

/// Statements separated by `sep`.
pub open spec fn show_stmts(v: Seq<StmtM>, sep: Seq<char>) -> Seq<char>
    decreases v,
{
    if v.len() == 0 {
        Seq::empty()
    } else if v.len() == 1 {
        show_stmt(v[0])
    } else {
        show_stmts(v.drop_last(), sep) + sep + show_stmt(v.last())
    }
}

/// A program: one statement per line.
pub open spec fn show_program(v: Seq<StmtM>) -> Seq<char> {
    show_stmts(v, "\n"@)
}

proof fn lemma_exprs_m_len(s: Seq<Expression>)
    ensures
        exprs_m(s).len() == s.len(),
    decreases s.len(),
{
    if s.len() > 0 {
        lemma_exprs_m_len(s.drop_last());
    }
}

proof fn lemma_stmts_m_len(s: Seq<Statement>)
    ensures
        stmts_m(s).len() == s.len(),
    decreases s.len(),
{
    if s.len() > 0 {
        lemma_stmts_m_len(s.drop_last());
    }
}

proof fn lemma_pairs_m_len(s: Seq<(Expression, Expression)>)
    ensures
        pairs_m(s).len() == s.len(),
    decreases s.len(),
{
    if s.len() > 0 {
        lemma_pairs_m_len(s.drop_last());
    }
}

fn push_str(out: &mut Vec<char>, s: &str)
    ensures
        final(out)@ == old(out)@ + s@,
{
    let t = chars_of(s);
    push_chars(out, &t);
}

fn write_list(v: &Vec<Expression>, out: &mut Vec<char>)
    ensures
        final(out)@ == old(out)@ + show_list(exprs_m(v@)),
    decreases v, 2int,
{
    let mut i: usize = 0;
    while i < v.len()
        invariant
            i <= v.len(),
            out@ == old(out)@ + show_list(exprs_m(v@.subrange(0, i as int))),
        decreases v.len() - i,
    {
        proof {
            assert(decreases_to!(*v => v@));
            assert(decreases_to!(v@ => v@[i as int]));
            lemma_exprs_m_len(v@.subrange(0, i as int));
            assert(v@.subrange(0, i + 1) =~= v@.subrange(0, i as int).push(v@[i as int]));
            lemma_exprs_m_push(v@.subrange(0, i as int), v@[i as int]);
            assert(exprs_m(v@.subrange(0, i + 1)).drop_last() =~= exprs_m(
                v@.subrange(0, i as int),
            ));
        }
        if i > 0 {
            push_str(out, ", ");
        }
        write_expr(&v[i], out);
        i += 1;
    }
    assert(v@.subrange(0, v.len() as int) =~= v@);
}

fn write_pairs(v: &Vec<(Expression, Expression)>, out: &mut Vec<char>)
    ensures
        final(out)@ == old(out)@ + show_pairs(pairs_m(v@)),
    decreases v, 2int,
{
    let mut i: usize = 0;
    while i < v.len()
        invariant
            i <= v.len(),
            out@ == old(out)@ + show_pairs(pairs_m(v@.subrange(0, i as int))),
        decreases v.len() - i,
    {
        proof {
            assert(decreases_to!(*v => v@));
            assert(decreases_to!(v@ => v@[i as int]));
            assert(decreases_to!(v@[i as int] => v@[i as int].0));
            assert(decreases_to!(v@[i as int] => v@[i as int].1));
            lemma_pairs_m_len(v@.subrange(0, i as int));
            assert(v@.subrange(0, i + 1) =~= v@.subrange(0, i as int).push(v@[i as int]));
            lemma_pairs_m_push(v@.subrange(0, i as int), v@[i as int]);
            assert(pairs_m(v@.subrange(0, i + 1)).drop_last() =~= pairs_m(
                v@.subrange(0, i as int),
            ));
        }
        if i > 0 {
            push_str(out, ", ");
        }
        write_expr(&v[i].0, out);
        push_str(out, ": ");
        write_expr(&v[i].1, out);
        i += 1;
    }
    assert(v@.subrange(0, v.len() as int) =~= v@);
}

pub(crate) fn write_names(v: &Vec<Identifier>, out: &mut Vec<char>)
    ensures
        final(out)@ == old(out)@ + show_names(v@.map_values(|i: Identifier| i.value@)),
{
    let ghost names = v@.map_values(|i: Identifier| i.value@);
    let mut i: usize = 0;
    while i < v.len()
        invariant
            i <= v.len(),
            names == v@.map_values(|i: Identifier| i.value@),
            out@ == old(out)@ + show_names(names.subrange(0, i as int)),
        decreases v.len() - i,
    {
        proof {
            assert(names.subrange(0, i + 1).drop_last() =~= names.subrange(0, i as int));
        }
        if i > 0 {
            push_str(out, ", ");
        }
        push_chars(out, &v[i].value);
        i += 1;
    }
    assert(names.subrange(0, v.len() as int) =~= names);
}

fn write_stmts(v: &Vec<Statement>, sep: &str, out: &mut Vec<char>)
    ensures
        final(out)@ == old(out)@ + show_stmts(stmts_m(v@), sep@),
    decreases v, 0int,
{
    let mut i: usize = 0;
    while i < v.len()
        invariant
            i <= v.len(),
            out@ == old(out)@ + show_stmts(stmts_m(v@.subrange(0, i as int)), sep@),
        decreases v.len() - i,
    {
        proof {
            assert(decreases_to!(*v => v@));
            assert(decreases_to!(v@ => v@[i as int]));
            lemma_stmts_m_len(v@.subrange(0, i as int));
            assert(v@.subrange(0, i + 1) =~= v@.subrange(0, i as int).push(v@[i as int]));
            lemma_stmts_m_push(v@.subrange(0, i as int), v@[i as int]);
            assert(stmts_m(v@.subrange(0, i + 1)).drop_last() =~= stmts_m(
                v@.subrange(0, i as int),
            ));
        }
        if i > 0 {
            push_str(out, sep);
        }
        write_stmt(&v[i], out);
        i += 1;
    }
    assert(v@.subrange(0, v.len() as int) =~= v@);
}

/// Writes `{[s1, s2]}`.
fn write_block(v: &Vec<Statement>, out: &mut Vec<char>)
    ensures
        final(out)@ == old(out)@ + "{["@ + show_stmts(stmts_m(v@), ", "@) + "]}"@,
    decreases v, 1int,
{
    let ghost o = out@;
    push_str(out, "{[");
    write_stmts(v, ", ", out);
    push_str(out, "]}");
    assert(out@ =~= o + "{["@ + show_stmts(stmts_m(v@), ", "@) + "]}"@);
}

fn write_stmt(s: &Statement, out: &mut Vec<char>)
    ensures
        final(out)@ == old(out)@ + show_stmt(stmt_m(*s)),
    decreases s, 2int,
{
    let ghost o = out@;
    match s {
        Statement::Let { name, value } => {
            push_str(out, "let ");
            push_chars(out, &name.value);
            push_str(out, " = ");
            write_expr(value, out);
            push_str(out, ";");
            assert(out@ =~= o + show_stmt(stmt_m(*s)));
        },
        Statement::ReAssign { name, value } => {
            push_chars(out, &name.value);
            push_str(out, " = ");
            write_expr(value, out);
            push_str(out, ";");
            assert(out@ =~= o + show_stmt(stmt_m(*s)));
        },
        Statement::Return { value } => {
            push_str(out, "return ");
            write_expr(value, out);
            push_str(out, ";");
            assert(out@ =~= o + show_stmt(stmt_m(*s)));
        },
        Statement::Expression { value } => {
            write_expr(value, out);
        },
    }
}

fn write_infix_op(op: InfixOp, out: &mut Vec<char>)
    ensures
        final(out)@ == old(out)@ + infix_text(op),
{
    match op {
        InfixOp::Add => push_str(out, "+"),
        InfixOp::Sub => push_str(out, "-"),
        InfixOp::Mul => push_str(out, "*"),
        InfixOp::Div => push_str(out, "/"),
        InfixOp::Lt => push_str(out, "<"),
        InfixOp::Gt => push_str(out, ">"),
        InfixOp::Eq => push_str(out, "=="),
        InfixOp::NotEq => push_str(out, "!="),
        InfixOp::Assign => push_str(out, "="),
    }
}

#[verifier::rlimit(40)]
fn write_expr(e: &Expression, out: &mut Vec<char>)
    ensures
        final(out)@ == old(out)@ + show_expr(expr_m(*e)),
    decreases e, 2int,
{
    let ghost o = out@;
    match e {
        Expression::Literal(l) => match l {
            Literal::Integer(n) => push_int(out, *n),
            Literal::Boolean(b) => if *b {
                push_str(out, "true");
            } else {
                push_str(out, "false");
            },
            Literal::String(t) => push_chars(out, t),
            Literal::Array(v) => {
                assert(expr_m(*e) == ExprM::Lit(lit_m(*l)));
                push_str(out, "[");
                write_list(v, out);
                push_str(out, "]");
                assert(out@ =~= o + show_expr(expr_m(*e)));
            },
            Literal::Hash(v) => {
                assert(expr_m(*e) == ExprM::Lit(lit_m(*l)));
                push_str(out, "{");
                write_pairs(v, out);
                push_str(out, "}");
                assert(out@ =~= o + show_expr(expr_m(*e)));
            },
        },
        Expression::Identifier(id) => push_chars(out, &id.value),
        Expression::Prefix { operator, right } => {
            push_str(out, "(");
            match operator {
                PrefixOp::Bang => push_str(out, "!"),
                PrefixOp::Minus => push_str(out, "-"),
            }
            write_expr(right, out);
            push_str(out, ")");
            assert(out@ =~= o + show_expr(expr_m(*e)));
        },
        Expression::Infix { left, operator, right } => {
            push_str(out, "(");
            write_expr(left, out);
            push_str(out, " ");
            write_infix_op(*operator, out);
            push_str(out, " ");
            write_expr(right, out);
            push_str(out, ")");
            assert(out@ =~= o + show_expr(expr_m(*e)));
        },
        Expression::If { condition, consequence, alternative } => {
            push_str(out, "(");
            write_expr(condition, out);
            push_str(out, " ");
            write_block(consequence, out);
            match alternative {
                Some(a) => {
                    push_str(out, " else ");
                    write_block(a, out);
                },
                None => {},
            }
            push_str(out, ")");
            assert(out@ =~= o + show_expr(expr_m(*e)));
        },
        Expression::FunctionLiteral { parameters, body } => {
            push_str(out, "fn(");
            write_names(parameters, out);
            push_str(out, ") ");
            write_block(body, out);
            assert(out@ =~= o + show_expr(expr_m(*e)));
        },
        Expression::FunctionCall { function, arguments } => {
            write_expr(function, out);
            push_str(out, "(");
            write_list(arguments, out);
            push_str(out, ")");
            assert(out@ =~= o + show_expr(expr_m(*e)));
        },
        Expression::IndexExpression { left, index } => {
            push_str(out, "(");
            write_expr(left, out);
            push_str(out, "[");
            write_expr(index, out);
            push_str(out, "])");
            assert(out@ =~= o + show_expr(expr_m(*e)));
        },
        Expression::DotNotation { left, right } => {
            push_str(out, "(");
            write_expr(left, out);
            push_str(out, ".");
            write_expr(right, out);
            push_str(out, ")");
            assert(out@ =~= o + show_expr(expr_m(*e)));
        },
    }
}

/// The text of an expression.
pub fn render_expression(e: &Expression) -> (r: Vec<char>)
    ensures
        r@ == show_expr(expr_m(*e)),
{
    let mut out: Vec<char> = Vec::new();
    write_expr(e, &mut out);
    assert(out@ =~= show_expr(expr_m(*e)));
    out
}

/// The text of a statement.
pub fn render_statement(s: &Statement) -> (r: Vec<char>)
    ensures
        r@ == show_stmt(stmt_m(*s)),
{
    let mut out: Vec<char> = Vec::new();
    write_stmt(s, &mut out);
    assert(out@ =~= show_stmt(stmt_m(*s)));
    out
}

/// The text of a program, one statement per line.
pub fn render_program(p: &Vec<Statement>) -> (r: Vec<char>)
    ensures
        r@ == show_program(stmts_m(p@)),
{
    let mut out: Vec<char> = Vec::new();
    write_stmts(p, "\n", &mut out);
    assert(out@ =~= show_program(stmts_m(p@)));
    out
}

/// The printed form of a value: numbers in decimal, strings as they are,
/// arrays and hashes with their elements, a function by its parameters.
pub open spec fn show_val(v: Val) -> Seq<char>
    decreases v,
{
    match v {
        Val::Integer(n) => int_text(n as int),
        Val::Boolean(b) => if b {
            "true"@
        } else {
            "false"@
        },
        Val::Str(s) => s,
        Val::Array(a) => "["@ + show_vals(a) + "]"@,
        Val::Hash(h) => "{"@ + show_vpairs(h) + "}"@,
        Val::Function(ps, _, _) => "fn("@ + show_names(ps@.map_values(|i: Identifier| i.value@))
            + ")"@,
        Val::Builtin(_) => "builtin function"@,
        Val::Return(b) => show_val(*b),
        Val::Error(m) => "ERROR: "@ + m,
        Val::Empty => Seq::empty(),
        Val::Null => "null"@,
    }
}

/// Values separated by `, `.
pub open spec fn show_vals(v: Seq<Val>) -> Seq<char>
    decreases v,
{
    if v.len() == 0 {
        Seq::empty()
    } else if v.len() == 1 {
        show_val(v[0])
    } else {
        show_vals(v.drop_last()) + ", "@ + show_val(v.last())
    }
}

/// `key: value` pairs of values separated by `, `.
pub open spec fn show_vpairs(v: Seq<(Val, Val)>) -> Seq<char>
    decreases v,
{
    if v.len() == 0 {
        Seq::empty()
    } else if v.len() == 1 {
        show_val(v[0].0) + ": "@ + show_val(v[0].1)
    } else {
        show_vpairs(v.drop_last()) + ", "@ + show_val(v.last().0) + ": "@ + show_val(v.last().1)
    }
}

fn write_values<'a>(v: &Vec<Object<'a>>, out: &mut Vec<char>)
    ensures
        final(out)@ == old(out)@ + show_vals(objs_v(v@)),
    decreases v, 1int,
{
    let mut i: usize = 0;
    while i < v.len()
        invariant
            i <= v.len(),
            out@ == old(out)@ + show_vals(objs_v(v@.subrange(0, i as int))),
        decreases v.len() - i,
    {
        proof {
            assert(decreases_to!(*v => v@));
            assert(decreases_to!(v@ => v@[i as int]));
            lemma_objs_v_len(v@.subrange(0, i as int));
            assert(v@.subrange(0, i + 1) =~= v@.subrange(0, i as int).push(v@[i as int]));
            lemma_objs_v_push(v@.subrange(0, i as int), v@[i as int]);
            assert(objs_v(v@.subrange(0, i + 1)).drop_last() =~= objs_v(v@.subrange(0, i as int)));
        }
        if i > 0 {
            push_str(out, ", ");
        }
        write_value(&v[i], out);
        i += 1;
    }
    assert(v@.subrange(0, v.len() as int) =~= v@);
}

fn write_value_pairs<'a>(v: &Vec<(Object<'a>, Object<'a>)>, out: &mut Vec<char>)
    ensures
        final(out)@ == old(out)@ + show_vpairs(opairs_v(v@)),
    decreases v, 1int,
{
    let mut i: usize = 0;
    while i < v.len()
        invariant
            i <= v.len(),
            out@ == old(out)@ + show_vpairs(opairs_v(v@.subrange(0, i as int))),
        decreases v.len() - i,
    {
        proof {
            assert(decreases_to!(*v => v@));
            assert(decreases_to!(v@ => v@[i as int]));
            assert(decreases_to!(v@[i as int] => v@[i as int].0));
            assert(decreases_to!(v@[i as int] => v@[i as int].1));
            lemma_opairs_v_len(v@.subrange(0, i as int));
            assert(v@.subrange(0, i + 1) =~= v@.subrange(0, i as int).push(v@[i as int]));
            lemma_opairs_v_push(v@.subrange(0, i as int), v@[i as int]);
            assert(opairs_v(v@.subrange(0, i + 1)).drop_last() =~= opairs_v(
                v@.subrange(0, i as int),
            ));
        }
        if i > 0 {
            push_str(out, ", ");
        }
        write_value(&v[i].0, out);
        push_str(out, ": ");
        write_value(&v[i].1, out);
        i += 1;
    }
    assert(v@.subrange(0, v.len() as int) =~= v@);
}

fn write_value<'a>(o: &Object<'a>, out: &mut Vec<char>)
    ensures
        final(out)@ == old(out)@ + show_val(obj_v(*o)),
    decreases o, 2int,
{
    let ghost start = out@;
    match o {
        Object::Integer(n) => push_int(out, *n),
        Object::Boolean(b) => if *b {
            push_str(out, "true");
        } else {
            push_str(out, "false");
        },
        Object::String(t) => push_chars(out, t),
        Object::Array(v) => {
            push_str(out, "[");
            write_values(v, out);
            push_str(out, "]");
            assert(out@ =~= start + show_val(obj_v(*o)));
        },
        Object::Hash(v) => {
            push_str(out, "{");
            write_value_pairs(v, out);
            push_str(out, "}");
            assert(out@ =~= start + show_val(obj_v(*o)));
        },
        Object::Function { parameters, body: _, env: _ } => {
            push_str(out, "fn(");
            write_names(parameters, out);
            push_str(out, ")");
            assert(out@ =~= start + show_val(obj_v(*o)));
        },
        Object::BuiltinFunction(_) => push_str(out, "builtin function"),
        Object::Return(b) => write_value(b, out),
        Object::Error(m) => {
            push_str(out, "ERROR: ");
            push_chars(out, m);
            assert(out@ =~= start + show_val(obj_v(*o)));
        },
        Object::Empty => {
            assert(out@ =~= start + show_val(obj_v(*o)));
        },
        Object::Null => push_str(out, "null"),
    }
}

/// The printed form of a value.
pub fn render_value(o: &Object) -> (r: Vec<char>)
    ensures
        r@ == show_val(obj_v(*o)),
{
    let mut out: Vec<char> = Vec::new();
    write_value(o, &mut out);
    assert(out@ =~= show_val(obj_v(*o)));
    out
}

} // verus!
