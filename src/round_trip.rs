use vstd::prelude::*;

use crate::ast::{ExprM, InfixOp, LitM, PrefixOp, StmtM};
use crate::lexer::{
    digits_end, is_digit, is_letter, keyword, lex, lex_from, token_m, word_end, Token,
    TokenType,
};
use crate::ops::infix_text;
use crate::parser::{
    all_digits, decimal_value, digit_value, kind_at, pbinary, pcall, pexpr, pgroup, pindex,
    pinfix, plist, plist_more, power, pprefix, punary, program_of, pstmt, pstmts, text_at, infix_of, int_literal, LOWEST,
};
use crate::render::{prefix_text, show_expr, show_list, show_program, show_stmts, show_stmt};
use crate::show::{digit_char, nat_text};

verus! {

/// The token kind that an infix operator is written with.
pub open spec fn op_kind(op: InfixOp) -> TokenType {
    match op {
        InfixOp::Add => TokenType::Add,
        InfixOp::Sub => TokenType::Sub,
        InfixOp::Mul => TokenType::Mul,
        InfixOp::Div => TokenType::Div,
        InfixOp::Lt => TokenType::Lt,
        InfixOp::Gt => TokenType::Gt,
        InfixOp::Eq => TokenType::Eq,
        InfixOp::NotEq => TokenType::NotEq,
        InfixOp::Assign => TokenType::Assign,
    }
}

/// The token kind that a prefix operator is written with.
pub open spec fn prefix_kind(op: PrefixOp) -> TokenType {
    match op {
        PrefixOp::Bang => TokenType::Bang,
        PrefixOp::Minus => TokenType::Sub,
    }
}

/// The expressions whose text parses back to themselves: non-negative
/// integer literals, booleans, identifiers that are not keywords, arrays,
/// and prefix, infix, index and call operations on such expressions.
pub open spec fn plain(e: ExprM) -> bool
    decreases e,
{
    match e {
        ExprM::Lit(LitM::Integer(n)) => n >= 0,
        ExprM::Ident(x) => x.len() > 0 && is_letter(x[0]) && (forall|k: int|
            0 <= k < x.len() ==> is_letter(#[trigger] x[k]) || is_digit(x[k])) && keyword(x)
            == TokenType::Ident,
        ExprM::Lit(LitM::Boolean(_)) => true,
        ExprM::Infix(l, op, r) => plain(*l) && plain(*r),
        ExprM::Prefix(op, r) => plain(*r),
        ExprM::Index(l, i) => plain(*l) && plain(*i),
        ExprM::Lit(LitM::Array(v)) => plain_list(v),
        ExprM::Call(f, args) => plain(*f) && plain_list(args),
        _ => false,
    }
}

pub open spec fn plain_list(v: Seq<ExprM>) -> bool
    decreases v,
{
    if v.len() == 0 {
        true
    } else {
        plain_list(v.drop_last()) && plain(v.last())
    }
}

/// The tokens of the text of a plain expression.
pub open spec fn toks(e: ExprM) -> Seq<(TokenType, Seq<char>)>
    decreases e,
{
    match e {
        ExprM::Lit(LitM::Integer(n)) => seq![(TokenType::Number, nat_text(n as nat))],
        ExprM::Ident(x) => seq![(TokenType::Ident, x)],
        ExprM::Infix(l, op, r) => seq![(TokenType::LParen, "("@)] + toks(*l) + seq![
            (op_kind(op), infix_text(op)),
        ] + toks(*r) + seq![(TokenType::RParen, ")"@)],
        ExprM::Lit(LitM::Boolean(b)) => if b {
            seq![(TokenType::True, "true"@)]
        } else {
            seq![(TokenType::False, "false"@)]
        },
        ExprM::Prefix(op, r) => seq![(TokenType::LParen, "("@)] + seq![
            (prefix_kind(op), prefix_text(op)),
        ] + toks(*r) + seq![(TokenType::RParen, ")"@)],
        ExprM::Index(l, i) => seq![(TokenType::LParen, "("@)] + toks(*l) + seq![
            (TokenType::LBracket, "["@),
        ] + toks(*i) + seq![(TokenType::RBracket, "]"@)] + seq![(TokenType::RParen, ")"@)],
        ExprM::Lit(LitM::Array(v)) => seq![(TokenType::LBracket, "["@)] + toks_list(v) + seq![
            (TokenType::RBracket, "]"@),
        ],
        ExprM::Call(f, args) => toks(*f) + seq![(TokenType::LParen, "("@)] + toks_list(args) + seq![
            (TokenType::RParen, ")"@),
        ],
        _ => Seq::empty(),
    }
}

/// The tokens of expressions separated by commas.
pub open spec fn toks_list(v: Seq<ExprM>) -> Seq<(TokenType, Seq<char>)>
    decreases v,
{
    if v.len() == 0 {
        Seq::empty()
    } else if v.len() == 1 {
        toks(v[0])
    } else {
        toks_list(v.drop_last()) + seq![(TokenType::Comma, ","@)] + toks(v.last())
    }
}

proof fn lemma_digit_char(d: nat)
    requires
        d < 10,
    ensures
        '0' <= digit_char(d) <= '9',
        digit_value(digit_char(d)) == d,
{
    let s = seq!['0', '1', '2', '3', '4', '5', '6', '7', '8', '9'];
    if d == 0 {
        assert(s[0] == '0');
    } else if d == 1 {
        assert(s[1] == '1');
    } else if d == 2 {
        assert(s[2] == '2');
    } else if d == 3 {
        assert(s[3] == '3');
    } else if d == 4 {
        assert(s[4] == '4');
    } else if d == 5 {
        assert(s[5] == '5');
    } else if d == 6 {
        assert(s[6] == '6');
    } else if d == 7 {
        assert(s[7] == '7');
    } else if d == 8 {
        assert(s[8] == '8');
    } else {
        assert(s[9] == '9');
    }
}

proof fn lemma_nat_text(n: nat)
    ensures
        nat_text(n).len() >= 1,
        all_digits(nat_text(n)),
        decimal_value(nat_text(n)) == n,
    decreases n,
{
    if n < 10 {
        lemma_digit_char(n);
        let s = nat_text(n);
        assert(s.drop_last() =~= Seq::<char>::empty());
        assert(decimal_value(s.drop_last()) == 0);
    } else {
        lemma_nat_text(n / 10);
        lemma_digit_char(n % 10);
        let s = nat_text(n / 10);
        assert(nat_text(n).drop_last() =~= s);
    }
}

pub open spec fn ends_word(cs: Seq<char>, j: int) -> bool {
    j == cs.len() || !(is_letter(cs[j]) || is_digit(cs[j]))
}

proof fn lemma_word_end(cs: Seq<char>, i: int, j: int)
    requires
        0 <= i <= j <= cs.len(),
        forall|k: int| i <= k < j ==> is_letter(#[trigger] cs[k]) || is_digit(cs[k]),
        ends_word(cs, j),
    ensures
        word_end(cs, i) == j,
    decreases j - i,
{
    if i < j {
        lemma_word_end(cs, i + 1, j);
    }
}

proof fn lemma_digits_end(cs: Seq<char>, i: int, j: int)
    requires
        0 <= i <= j <= cs.len(),
        forall|k: int| i <= k < j ==> is_digit(#[trigger] cs[k]),
        j == cs.len() || !is_digit(cs[j]),
    ensures
        digits_end(cs, i) == j,
    decreases j - i,
{
    if i < j {
        lemma_digits_end(cs, i + 1, j);
    }
}

proof fn lemma_lex_op(op: InfixOp, cs: Seq<char>, i: int)
    requires
        0 <= i,
        i + infix_text(op).len() < cs.len(),
        cs.subrange(i, i + infix_text(op).len()) == infix_text(op),
        cs[i + infix_text(op).len()] == ' ',
    ensures
        lex_from(cs, i) == seq![(op_kind(op), infix_text(op))] + lex_from(
            cs,
            i + infix_text(op).len(),
        ),
{
    reveal(lex_from);
    reveal_strlit("+");
    reveal_strlit("-");
    reveal_strlit("*");
    reveal_strlit("/");
    reveal_strlit("<");
    reveal_strlit(">");
    reveal_strlit("==");
    reveal_strlit("!=");
    reveal_strlit("=");
    let t = infix_text(op);
    assert(cs[i] == t[0]);
    if t.len() == 2 {
        assert(cs[i + 1] == t[1]);
        assert(cs.subrange(i, i + 2) == t);
    } else {
        assert(cs.subrange(i, i + 1) == t);
    }
}

proof fn lemma_lex_plain(e: ExprM, cs: Seq<char>, i: int)
    requires
        plain(e),
        0 <= i,
        i + show_expr(e).len() <= cs.len(),
        cs.subrange(i, i + show_expr(e).len()) == show_expr(e),
        ends_word(cs, i + show_expr(e).len()),
    ensures
        lex_from(cs, i) == toks(e) + lex_from(cs, i + show_expr(e).len()),
    decreases e, 1int,
{
    match e {
        ExprM::Lit(LitM::Integer(n)) => lemma_lex_int(n, cs, i),
        ExprM::Ident(x) => lemma_lex_ident(x, cs, i),
        ExprM::Infix(_, _, _) => lemma_lex_infix(e, cs, i),
        ExprM::Lit(LitM::Boolean(b)) => lemma_lex_bool(b, cs, i),
        ExprM::Prefix(_, _) => lemma_lex_prefix(e, cs, i),
        ExprM::Index(_, _) => lemma_lex_index(e, cs, i),
        ExprM::Lit(LitM::Array(_)) => lemma_lex_array(e, cs, i),
        ExprM::Call(_, _) => lemma_lex_call(e, cs, i),
        _ => {},
    }
}

proof fn lemma_lex_int(n: i64, cs: Seq<char>, i: int)
    requires
        n >= 0,
        0 <= i,
        i + nat_text(n as nat).len() <= cs.len(),
        cs.subrange(i, i + nat_text(n as nat).len()) == nat_text(n as nat),
        ends_word(cs, i + nat_text(n as nat).len()),
    ensures
        lex_from(cs, i) == seq![(TokenType::Number, nat_text(n as nat))] + lex_from(
            cs,
            i + nat_text(n as nat).len(),
        ),
{
    reveal(lex_from);
    let s = nat_text(n as nat);
    let end = i + s.len();
    lemma_nat_text(n as nat);
    assert forall|k: int| i <= k < end implies is_digit(#[trigger] cs[k]) by {
        assert(cs[k] == cs.subrange(i, end)[k - i]);
    }
    assert(cs[i] == cs.subrange(i, end)[0]);
    lemma_digits_end(cs, i + 1, end);
}

proof fn lemma_lex_ident(x: Seq<char>, cs: Seq<char>, i: int)
    requires
        plain(ExprM::Ident(x)),
        0 <= i,
        i + x.len() <= cs.len(),
        cs.subrange(i, i + x.len()) == x,
        ends_word(cs, i + x.len()),
    ensures
        lex_from(cs, i) == seq![(TokenType::Ident, x)] + lex_from(cs, i + x.len()),
{
    reveal(lex_from);
    let end = i + x.len();
    assert forall|k: int| i <= k < end implies is_letter(#[trigger] cs[k]) || is_digit(cs[k]) by {
        assert(cs[k] == cs.subrange(i, end)[k - i]);
        assert(cs[k] == x[k - i]);
    }
    assert(cs[i] == cs.subrange(i, end)[0]);
    lemma_word_end(cs, i + 1, end);
}

#[verifier::spinoff_prover]
proof fn lemma_lex_infix(e: ExprM, cs: Seq<char>, i: int)
    requires
        e is Infix,
        plain(e),
        0 <= i,
        i + show_expr(e).len() <= cs.len(),
        cs.subrange(i, i + show_expr(e).len()) == show_expr(e),
        ends_word(cs, i + show_expr(e).len()),
    ensures
        lex_from(cs, i) == toks(e) + lex_from(cs, i + show_expr(e).len()),
    decreases e, 0int,
{
    let l = e->Infix_0;
    let op = e->Infix_1;
    let r = e->Infix_2;
    assert(e == ExprM::Infix(l, op, r));
    let a = show_expr(*l);
    let o = infix_text(op);
    let b = show_expr(*r);
    reveal_strlit("(");
    reveal_strlit(")");
    reveal_strlit(" ");
    assert(show_expr(e) == "("@ + a + " "@ + o + " "@ + b + ")"@);
    assert(show_expr(e).len() == a.len() + o.len() + b.len() + 4);
    lemma_layout(cs, i, a, o, b);
    let i1 = i + 1;
    let i2 = i1 + a.len();
    let i3 = i2 + 1;
    let i4 = i3 + o.len();
    let i5 = i4 + 1;
    let i6 = i5 + b.len();
    let end = i6 + 1;
    lemma_lex_plain(*l, cs, i1);
    lemma_lex_op(op, cs, i3);
    lemma_lex_plain(*r, cs, i5);
    lemma_lex_paren(cs, i);
    lemma_lex_paren(cs, i6);
    lemma_lex_space(cs, i2);
    lemma_lex_space(cs, i4);
    assert(toks(e) == seq![(TokenType::LParen, "("@)] + toks(*l) + seq![(op_kind(op), o)] + toks(*r)
        + seq![(TokenType::RParen, ")"@)]);
    assert(lex_from(cs, i) =~= toks(e) + lex_from(cs, end));
}

/// Where the parts of `a + t + b` stand in `cs` when it starts at `i`.
proof fn lemma_split3(cs: Seq<char>, i: int, a: Seq<char>, t: Seq<char>, b: Seq<char>)
    requires
        0 <= i,
        i + a.len() + t.len() + b.len() <= cs.len(),
        cs.subrange(i, i + a.len() + t.len() + b.len()) == a + t + b,
    ensures
        cs.subrange(i, i + a.len()) == a,
        forall|k: int| 0 <= k < t.len() ==> cs[i + a.len() + k] == #[trigger] t[k],
        cs.subrange(i + a.len() + t.len(), i + a.len() + t.len() + b.len()) == b,
{
    let end = i + a.len() + t.len() + b.len();
    let s = a + t + b;
    assert forall|j: int| 0 <= j < s.len() implies cs[i + j] == #[trigger] s[j] by {
        assert(cs.subrange(i, end)[j] == cs[i + j]);
    }
    assert forall|k: int| 0 <= k < a.len() implies cs.subrange(i, i + a.len())[k] == a[k] by {
        assert(s[k] == (a + t)[k]);
        assert(cs[i + k] == s[k]);
    }
    assert forall|k: int| 0 <= k < t.len() implies cs[i + a.len() + k] == #[trigger] t[k] by {
        assert(s[a.len() + k] == (a + t)[a.len() + k]);
        assert(cs[i + (a.len() + k)] == s[a.len() + k]);
    }
    assert forall|k: int| 0 <= k < b.len() implies cs.subrange(
        i + a.len() + t.len(),
        end,
    )[k] == b[k] by {
        assert(cs[i + (a.len() + t.len() + k)] == s[a.len() + t.len() + k]);
    }
    assert(cs.subrange(i, i + a.len()) =~= a);
    assert(cs.subrange(i + a.len() + t.len(), end) =~= b);
}

proof fn lemma_lex_list(v: Seq<ExprM>, cs: Seq<char>, i: int)
    requires
        plain_list(v),
        0 <= i,
        i + show_list(v).len() <= cs.len(),
        cs.subrange(i, i + show_list(v).len()) == show_list(v),
        ends_word(cs, i + show_list(v).len()),
    ensures
        lex_from(cs, i) == toks_list(v) + lex_from(cs, i + show_list(v).len()),
    decreases v,
{
    if v.len() == 0 {
        assert(toks_list(v) + lex_from(cs, i) =~= lex_from(cs, i));
    } else if v.len() == 1 {
        assert(v.drop_last().len() == 0);
        lemma_lex_plain(v[0], cs, i);
    } else {
        reveal_strlit(", ");
        let a = show_list(v.drop_last());
        let b = show_expr(v.last());
        assert(show_list(v) == a + ", "@ + b);
        lemma_split3(cs, i, a, ", "@, b);
        let i2 = i + a.len();
        assert(cs[i2] == ", "@[0]);
        assert(cs[i2 + 1] == ", "@[1]);
        lemma_lex_list(v.drop_last(), cs, i);
        lemma_lex_paren(cs, i2);
        lemma_lex_space(cs, i2 + 1);
        lemma_lex_plain(v.last(), cs, i2 + 2);
        assert(lex_from(cs, i) =~= toks_list(v) + lex_from(cs, i + show_list(v).len()));
    }
}

#[verifier::spinoff_prover]
proof fn lemma_lex_array(e: ExprM, cs: Seq<char>, i: int)
    requires
        e matches ExprM::Lit(LitM::Array(_)),
        plain(e),
        0 <= i,
        i + show_expr(e).len() <= cs.len(),
        cs.subrange(i, i + show_expr(e).len()) == show_expr(e),
        ends_word(cs, i + show_expr(e).len()),
    ensures
        lex_from(cs, i) == toks(e) + lex_from(cs, i + show_expr(e).len()),
    decreases e, 0int,
{
    let v = e->Lit_0->Array_0;
    assert(e == ExprM::Lit(LitM::Array(v)));
    reveal_strlit("[");
    reveal_strlit("]");
    let l = show_list(v);
    assert(show_expr(e) == "["@ + l + "]"@);
    lemma_split3(cs, i, "["@, l, "]"@);
    assert(cs[i + 0] == "["@[0]);
    assert(cs.subrange(i + 1, i + 1 + l.len()) =~= l) by {
        assert forall|k: int| 0 <= k < l.len() implies cs.subrange(i + 1, i + 1 + l.len())[k]
            == l[k] by {
            assert(cs[i + 1 + k] == l[k]);
        }
    }
    let j = i + 1 + l.len();
    assert(cs.subrange(j, j + 1)[0] == cs[j]);
    assert(cs[j] == ']');
    lemma_lex_paren(cs, i);
    lemma_lex_list(v, cs, i + 1);
    lemma_lex_paren(cs, j);
    assert(lex_from(cs, i) =~= toks(e) + lex_from(cs, j + 1));
}

#[verifier::spinoff_prover]
proof fn lemma_lex_call(e: ExprM, cs: Seq<char>, i: int)
    requires
        e is Call,
        plain(e),
        0 <= i,
        i + show_expr(e).len() <= cs.len(),
        cs.subrange(i, i + show_expr(e).len()) == show_expr(e),
        ends_word(cs, i + show_expr(e).len()),
    ensures
        lex_from(cs, i) == toks(e) + lex_from(cs, i + show_expr(e).len()),
    decreases e, 0int,
{
    let f = e->Call_0;
    let args = e->Call_1;
    assert(e == ExprM::Call(f, args));
    reveal_strlit("(");
    reveal_strlit(")");
    let a = show_expr(*f);
    let l = show_list(args);
    assert(show_expr(e) == a + "("@ + (l + ")"@));
    lemma_split3(cs, i, a, "("@, l + ")"@);
    let j = i + a.len();
    assert(cs[j + 0] == "("@[0]);
    let rest = l + ")"@;
    assert(cs.subrange(j + 1, j + 1 + rest.len()) == rest);
    assert(cs.subrange(j + 1, j + 1 + l.len()) =~= l) by {
        assert forall|k: int| 0 <= k < l.len() implies cs.subrange(j + 1, j + 1 + l.len())[k]
            == l[k] by {
            assert(cs.subrange(j + 1, j + 1 + rest.len())[k] == rest[k]);
        }
    }
    let m = j + 1 + l.len();
    assert(cs.subrange(j + 1, j + 1 + rest.len())[l.len() as int] == rest[l.len() as int]);
    assert(cs[m] == ')');
    lemma_lex_plain(*f, cs, i);
    lemma_lex_paren(cs, j);
    lemma_lex_list(args, cs, j + 1);
    lemma_lex_paren(cs, m);
    assert(lex_from(cs, i) =~= toks(e) + lex_from(cs, m + 1));
}

proof fn lemma_lex_space(cs: Seq<char>, i: int)
    requires
        0 <= i < cs.len(),
        cs[i] == ' ',
    ensures
        lex_from(cs, i) == lex_from(cs, i + 1),
{
    reveal(lex_from);
}

proof fn lemma_lex_paren(cs: Seq<char>, i: int)
    requires
        0 <= i < cs.len(),
        cs[i] == '(' || cs[i] == ')' || cs[i] == '[' || cs[i] == ']' || cs[i] == ',',
    ensures
        cs[i] == ',' ==> lex_from(cs, i) == seq![(TokenType::Comma, ","@)] + lex_from(cs, i + 1),
        cs[i] == '(' ==> lex_from(cs, i) == seq![(TokenType::LParen, "("@)] + lex_from(cs, i + 1),
        cs[i] == ')' ==> lex_from(cs, i) == seq![(TokenType::RParen, ")"@)] + lex_from(cs, i + 1),
        cs[i] == '[' ==> lex_from(cs, i) == seq![(TokenType::LBracket, "["@)] + lex_from(
            cs,
            i + 1,
        ),
        cs[i] == ']' ==> lex_from(cs, i) == seq![(TokenType::RBracket, "]"@)] + lex_from(
            cs,
            i + 1,
        ),
{
    reveal(lex_from);
    reveal_strlit("(");
    reveal_strlit(")");
    reveal_strlit("[");
    reveal_strlit("]");
    reveal_strlit(",");
    if cs[i] == ',' {
        assert(cs.subrange(i, i + 1) =~= ","@);
    } else if cs[i] == '(' {
        assert(cs.subrange(i, i + 1) =~= "("@);
    } else if cs[i] == ')' {
        assert(cs.subrange(i, i + 1) =~= ")"@);
    } else if cs[i] == '[' {
        assert(cs.subrange(i, i + 1) =~= "["@);
    } else {
        assert(cs.subrange(i, i + 1) =~= "]"@);
    }
}

proof fn lemma_lex_bool(b: bool, cs: Seq<char>, i: int)
    requires
        0 <= i,
        i + show_expr(ExprM::Lit(LitM::Boolean(b))).len() <= cs.len(),
        cs.subrange(i, i + show_expr(ExprM::Lit(LitM::Boolean(b))).len()) == show_expr(
            ExprM::Lit(LitM::Boolean(b)),
        ),
        ends_word(cs, i + show_expr(ExprM::Lit(LitM::Boolean(b))).len()),
    ensures
        lex_from(cs, i) == toks(ExprM::Lit(LitM::Boolean(b))) + lex_from(
            cs,
            i + show_expr(ExprM::Lit(LitM::Boolean(b))).len(),
        ),
{
    reveal(lex_from);
    reveal_strlit("true");
    reveal_strlit("false");
    let x = show_expr(ExprM::Lit(LitM::Boolean(b)));
    let end = i + x.len();
    assert forall|k: int| i <= k < end implies is_letter(#[trigger] cs[k]) || is_digit(cs[k]) by {
        assert(cs[k] == cs.subrange(i, end)[k - i]);
        assert(cs[k] == x[k - i]);
    }
    assert(cs[i] == cs.subrange(i, end)[0]);
    lemma_word_end(cs, i + 1, end);
    if b {
        assert(x =~= seq!['t', 'r', 'u', 'e']);
    } else {
        assert(x =~= seq!['f', 'a', 'l', 's', 'e']);
    }
}

/// The text of a plain expression starts with a digit, a letter or `(`.
proof fn lemma_show_first(e: ExprM)
    requires
        plain(e),
    ensures
        show_expr(e).len() >= 1,
        show_expr(e)[0] != '=',
    decreases e,
{
    reveal_strlit("(");
    reveal_strlit("[");
    reveal_strlit("true");
    reveal_strlit("false");
    match e {
        ExprM::Lit(LitM::Integer(n)) => {
            lemma_nat_text(n as nat);
            assert(show_expr(e) == nat_text(n as nat));
            assert('0' <= nat_text(n as nat)[0] <= '9');
        },
        ExprM::Lit(LitM::Boolean(b)) => {},
        ExprM::Lit(LitM::Array(v)) => {
            assert(show_expr(e)[0] == '[');
        },
        ExprM::Ident(x) => {},
        ExprM::Infix(l, op, r) => {
            assert(show_expr(e)[0] == '(');
        },
        ExprM::Prefix(op, r) => {
            assert(show_expr(e)[0] == '(');
        },
        ExprM::Index(l, i) => {
            assert(show_expr(e)[0] == '(');
        },
        ExprM::Call(f, args) => {
            lemma_show_first(*f);
            assert(show_expr(e)[0] == show_expr(*f)[0]);
        },
        _ => {},
    }
}

proof fn lemma_lex_prefix_op(op: PrefixOp, cs: Seq<char>, i: int)
    requires
        0 <= i,
        i + 1 < cs.len(),
        cs.subrange(i, i + 1) == prefix_text(op),
        cs[i + 1] != '=',
    ensures
        lex_from(cs, i) == seq![(prefix_kind(op), prefix_text(op))] + lex_from(cs, i + 1),
{
    reveal(lex_from);
    reveal_strlit("!");
    reveal_strlit("-");
    assert(cs[i] == cs.subrange(i, i + 1)[0]);
}

#[verifier::spinoff_prover]
#[verifier::rlimit(60)]
proof fn lemma_lex_prefix(e: ExprM, cs: Seq<char>, i: int)
    requires
        e is Prefix,
        plain(e),
        0 <= i,
        i + show_expr(e).len() <= cs.len(),
        cs.subrange(i, i + show_expr(e).len()) == show_expr(e),
        ends_word(cs, i + show_expr(e).len()),
    ensures
        lex_from(cs, i) == toks(e) + lex_from(cs, i + show_expr(e).len()),
    decreases e, 0int,
{
    let op = e->Prefix_0;
    let r = e->Prefix_1;
    assert(e == ExprM::Prefix(op, r));
    let o = prefix_text(op);
    let b = show_expr(*r);
    reveal_strlit("(");
    reveal_strlit(")");
    reveal_strlit("!");
    reveal_strlit("-");
    let s = show_expr(e);
    assert(s == "("@ + o + b + ")"@);
    assert(o.len() == 1);
    let end = i + s.len();
    assert(end == i + b.len() + 3);
    assert forall|j: int| 0 <= j < s.len() implies cs[i + j] == #[trigger] s[j] by {
        assert(cs.subrange(i, end)[j] == cs[i + j]);
    }
    let c1 = "("@ + o;
    let c2 = c1 + b;
    assert(s[0] == c2[0] && c2[0] == c1[0] && c1[0] == '(');
    assert(cs[i] == '(');
    assert(s[1] == c2[1] && c2[1] == c1[1] && c1[1] == o[0]);
    assert(cs.subrange(i + 1, i + 2) =~= o);
    assert forall|k: int| 0 <= k < b.len() implies cs.subrange(i + 2, i + 2 + b.len())[k] == b[k] by {
        assert(s[2 + k] == c2[2 + k] && c2[2 + k] == b[k]);
        assert(cs[i + (2 + k)] == s[2 + k]);
    }
    assert(cs.subrange(i + 2, i + 2 + b.len()) =~= b);
    let j6: int = 2 + b.len() as int;
    assert(s[j6] == ')');
    assert(cs[i + j6] == ')');
    lemma_show_first(*r);
    assert(s[2] == c2[2] && c2[2] == b[0]);
    assert(cs[i + 2] == b[0]);
    lemma_lex_paren(cs, i);
    lemma_lex_prefix_op(op, cs, i + 1);
    lemma_lex_plain(*r, cs, i + 2);
    lemma_lex_paren(cs, i + j6);
    assert(lex_from(cs, i) =~= toks(e) + lex_from(cs, end));
}

#[verifier::spinoff_prover]
#[verifier::rlimit(60)]
proof fn lemma_lex_index(e: ExprM, cs: Seq<char>, i: int)
    requires
        e is Index,
        plain(e),
        0 <= i,
        i + show_expr(e).len() <= cs.len(),
        cs.subrange(i, i + show_expr(e).len()) == show_expr(e),
        ends_word(cs, i + show_expr(e).len()),
    ensures
        lex_from(cs, i) == toks(e) + lex_from(cs, i + show_expr(e).len()),
    decreases e, 0int,
{
    let l = e->Index_0;
    let x = e->Index_1;
    assert(e == ExprM::Index(l, x));
    let a = show_expr(*l);
    let b = show_expr(*x);
    reveal_strlit("(");
    reveal_strlit("[");
    reveal_strlit("])");
    let s = show_expr(e);
    assert(s == "("@ + a + "["@ + b + "])"@);
    let end = i + s.len();
    assert(end == i + a.len() + b.len() + 4);
    assert forall|j: int| 0 <= j < s.len() implies cs[i + j] == #[trigger] s[j] by {
        assert(cs.subrange(i, end)[j] == cs[i + j]);
    }
    let c1 = "("@ + a;
    let c2 = c1 + "["@;
    let c3 = c2 + b;
    assert(s[0] == c3[0] && c3[0] == c2[0] && c2[0] == c1[0] && c1[0] == '(');
    assert(cs[i] == '(');
    assert forall|k: int| 0 <= k < a.len() implies cs.subrange(i + 1, i + 1 + a.len())[k] == a[k] by {
        assert(s[1 + k] == c3[1 + k] && c3[1 + k] == c2[1 + k] && c2[1 + k] == c1[1 + k] && c1[1
            + k] == a[k]);
        assert(cs[i + (1 + k)] == s[1 + k]);
    }
    assert(cs.subrange(i + 1, i + 1 + a.len()) =~= a);
    let j2: int = 1 + a.len() as int;
    assert(s[j2] == c3[j2] && c3[j2] == c2[j2] && c2[j2] == '[');
    assert(cs[i + j2] == '[');
    assert forall|k: int| 0 <= k < b.len() implies cs.subrange(i + j2 + 1, i + j2 + 1 + b.len())[k]
        == b[k] by {
        assert(s[j2 + 1 + k] == c3[j2 + 1 + k] && c3[j2 + 1 + k] == b[k]);
        assert(cs[i + (j2 + 1 + k)] == s[j2 + 1 + k]);
    }
    assert(cs.subrange(i + j2 + 1, i + j2 + 1 + b.len()) =~= b);
    let j4: int = j2 + 1 + b.len() as int;
    assert(s[j4] == ']');
    assert(s[j4 + 1] == ')');
    assert(cs[i + j4] == ']');
    assert(cs[i + j4 + 1] == ')');
    lemma_lex_paren(cs, i);
    lemma_lex_plain(*l, cs, i + 1);
    lemma_lex_paren(cs, i + j2);
    lemma_lex_plain(*x, cs, i + j2 + 1);
    lemma_lex_paren(cs, i + j4);
    lemma_lex_paren(cs, i + j4 + 1);
    assert(lex_from(cs, i) =~= toks(e) + lex_from(cs, end));
}

/// Where the parts of `(a o b)` stand in `cs` when it starts at `i`.
#[verifier::rlimit(60)]
proof fn lemma_layout(cs: Seq<char>, i: int, a: Seq<char>, o: Seq<char>, b: Seq<char>)
    requires
        0 <= i,
        i + a.len() + o.len() + b.len() + 4 <= cs.len(),
        cs.subrange(i, i + a.len() + o.len() + b.len() + 4) == "("@ + a + " "@ + o + " "@ + b
            + ")"@,
    ensures
        cs[i] == '(',
        cs.subrange(i + 1, i + 1 + a.len()) == a,
        cs[i + 1 + a.len()] == ' ',
        cs.subrange(i + 2 + a.len(), i + 2 + a.len() + o.len()) == o,
        cs[i + 2 + a.len() + o.len()] == ' ',
        cs.subrange(i + 3 + a.len() + o.len(), i + 3 + a.len() + o.len() + b.len()) == b,
        cs[i + 3 + a.len() + o.len() + b.len()] == ')',
        ends_word(cs, i + 1 + a.len()),
        ends_word(cs, i + 3 + a.len() + o.len() + b.len()),
{
    reveal_strlit("(");
    reveal_strlit(")");
    reveal_strlit(" ");
    let end = i + a.len() + o.len() + b.len() + 4;
    let c1 = "("@ + a;
    let c2 = c1 + " "@;
    let c3 = c2 + o;
    let c4 = c3 + " "@;
    let c5 = c4 + b;
    let s = c5 + ")"@;
    assert forall|j: int| 0 <= j < s.len() implies cs[i + j] == #[trigger] s[j] by {
        assert(cs.subrange(i, end)[j] == cs[i + j]);
    }
    assert(s[0] == c5[0] && c5[0] == c4[0] && c4[0] == c3[0] && c3[0] == c2[0] && c2[0] == c1[0]
        && c1[0] == '(');
    assert(cs[i] == s[0]);
    let j2: int = 1 + a.len() as int;
    assert(s[j2] == c5[j2] && c5[j2] == c4[j2] && c4[j2] == c3[j2] && c3[j2] == c2[j2] && c2[j2]
        == ' ');
    assert(cs[i + j2] == s[j2]);
    let j4: int = 2 + a.len() as int + o.len() as int;
    assert(s[j4] == c5[j4] && c5[j4] == c4[j4] && c4[j4] == ' ');
    assert(cs[i + j4] == s[j4]);
    let j6: int = 3 + a.len() as int + o.len() as int + b.len() as int;
    assert(s[j6] == ')');
    assert(cs[i + j6] == s[j6]);
    assert forall|k: int| 0 <= k < a.len() implies cs.subrange(i + 1, i + 1 + a.len())[k]
        == a[k] by {
        let j = 1 + k;
        assert(s[j] == c5[j] && c5[j] == c4[j] && c4[j] == c3[j] && c3[j] == c2[j] && c2[j]
            == c1[j] && c1[j] == a[k]);
        assert(cs[i + j] == s[j]);
    }
    assert forall|k: int| 0 <= k < o.len() implies cs.subrange(
        i + 2 + a.len(),
        i + 2 + a.len() + o.len(),
    )[k] == o[k] by {
        let j: int = 2 + a.len() + k;
        assert(s[j] == c5[j] && c5[j] == c4[j] && c4[j] == c3[j] && c3[j] == o[k]);
        assert(cs[i + j] == s[j]);
    }
    assert forall|k: int| 0 <= k < b.len() implies cs.subrange(
        i + 3 + a.len() + o.len(),
        i + 3 + a.len() + o.len() + b.len(),
    )[k] == b[k] by {
        let j: int = 3 + a.len() + o.len() + k;
        assert(s[j] == c5[j] && c5[j] == b[k]);
        assert(cs[i + j] == s[j]);
    }
    assert(cs.subrange(i + 1, i + 1 + a.len()) =~= a);
    assert(cs.subrange(i + 2 + a.len(), i + 2 + a.len() + o.len()) =~= o);
    assert(cs.subrange(i + 3 + a.len() + o.len(), i + 3 + a.len() + o.len() + b.len()) =~= b);
}

pub open spec fn holds_at(ts: Seq<Token>, p: int, m: Seq<(TokenType, Seq<char>)>) -> bool {
    &&& 0 <= p
    &&& p + m.len() <= ts.len()
    &&& forall|k: int| 0 <= k < m.len() ==> token_m(#[trigger] ts[p + k]) == m[k]
}

proof fn lemma_toks_len(e: ExprM)
    requires
        plain(e),
    ensures
        toks(e).len() >= 1,
        toks(e)[0].0 == TokenType::Number || toks(e)[0].0 == TokenType::Ident || toks(e)[0].0
            == TokenType::LParen || toks(e)[0].0 == TokenType::True || toks(e)[0].0
            == TokenType::False || toks(e)[0].0 == TokenType::LBracket,
        toks(e)[0].0 == TokenType::Ident ==> (toks(e).len() == 1 || toks(e)[1].0
            == TokenType::LParen),
    decreases e,
{
    if let ExprM::Call(f, args) = e {
        lemma_toks_len(*f);
        let tf = toks(*f);
        assert(toks(e)[0] == tf[0]);
        if tf.len() == 1 {
            assert(toks(e)[1].0 == TokenType::LParen);
        } else {
            assert(toks(e)[1] == tf[1]);
        }
    }
}

proof fn lemma_toks_list_step(v: Seq<ExprM>, k: int)
    requires
        1 <= k < v.len(),
    ensures
        toks_list(v.take(k + 1)) == toks_list(v.take(k)) + seq![(TokenType::Comma, ","@)] + toks(
            v[k],
        ),
{
    assert(v.take(k + 1).drop_last() =~= v.take(k));
}

/// The tokens of the first `k` elements begin the tokens of the list.
proof fn lemma_toks_list_prefix(v: Seq<ExprM>, k: int)
    requires
        1 <= k <= v.len(),
    ensures
        toks_list(v.take(k)).len() <= toks_list(v).len(),
        forall|j: int|
            0 <= j < toks_list(v.take(k)).len() ==> toks_list(v)[j] == #[trigger] toks_list(
                v.take(k),
            )[j],
    decreases v.len() - k,
{
    if k == v.len() {
        assert(v.take(k) =~= v);
    } else {
        lemma_toks_list_step(v, k);
        lemma_toks_list_prefix(v, k + 1);
        let t = toks_list(v.take(k));
        let t1 = toks_list(v.take(k + 1));
        assert forall|j: int| 0 <= j < t.len() implies toks_list(v)[j] == #[trigger] t[j] by {
            assert(t1[j] == t[j]);
            assert(toks_list(v)[j] == t1[j]);
        }
    }
}

proof fn lemma_plain_list(v: Seq<ExprM>, k: int)
    requires
        plain_list(v),
        0 <= k < v.len(),
    ensures
        plain(v[k]),
    decreases v.len(),
{
    if k < v.len() - 1 {
        lemma_plain_list(v.drop_last(), k);
    }
}

/// The elements from `k` on, after the tokens of the first `k` elements.
proof fn lemma_parse_list_more(v: Seq<ExprM>, k: int, ts: Seq<Token>, p: int, close: TokenType)
    requires
        plain_list(v),
        1 <= k <= v.len(),
        holds_at(ts, p + 1, toks_list(v)),
        kind_at(ts, p + 1 + toks_list(v).len()) == close,
        close == TokenType::RParen || close == TokenType::RBracket,
    ensures
        plist_more(ts, v.take(k), p + toks_list(v.take(k)).len(), close) == (
            Some(v),
            p + 1 + toks_list(v).len(),
        ),
    decreases v, v.len() - k,
{
    let pos = p + toks_list(v.take(k)).len();
    lemma_toks_list_prefix(v, k);
    if k == v.len() {
        assert(v.take(k) =~= v);
    } else {
        lemma_toks_list_step(v, k);
        lemma_toks_list_prefix(v, k + 1);
        let tk = toks_list(v.take(k));
        let tk1 = toks_list(v.take(k + 1));
        let te = toks(v[k]);
        assert(tk1[tk.len() as int] == (TokenType::Comma, ","@));
        assert(token_m(ts[(p + 1) + tk.len()]) == toks_list(v)[tk.len() as int]);
        assert(kind_at(ts, pos + 1) == TokenType::Comma);
        assert forall|j: int| 0 <= j < te.len() implies token_m(#[trigger] ts[(pos + 2) + j])
            == te[j] by {
            assert(tk1[tk.len() + 1 + j] == te[j]);
            assert(token_m(ts[(p + 1) + (tk.len() + 1 + j)]) == toks_list(v)[tk.len() + 1 + j]);
        }
        lemma_plain_list(v, k);
        lemma_toks_len(v[k]);
        lemma_parse_expr(v[k], ts, pos + 2, LOWEST);
        let ek = pos + 1 + te.len();
        assert(ek == p + tk1.len());
        if k + 1 < v.len() {
            lemma_toks_list_step(v, k + 1);
            lemma_toks_list_prefix(v, k + 2);
            assert(toks_list(v.take(k + 2))[tk1.len() as int] == (TokenType::Comma, ","@));
            assert(token_m(ts[(p + 1) + tk1.len()]) == toks_list(v)[tk1.len() as int]);
            assert(kind_at(ts, ek + 1) == TokenType::Comma);
        } else {
            assert(v.take(k + 1) =~= v);
            assert(kind_at(ts, ek + 1) == close);
        }
        assert(pinfix(ts, v[k], ek, LOWEST) == (Some(v[k]), ek));
        assert(v.take(k).push(v[k]) =~= v.take(k + 1));
        lemma_parse_list_more(v, k + 1, ts, p, close);
    }
}

/// A list between the opener at `p` and `close`.
proof fn lemma_parse_list(v: Seq<ExprM>, ts: Seq<Token>, p: int, close: TokenType)
    requires
        plain_list(v),
        0 <= p,
        holds_at(ts, p + 1, toks_list(v)),
        kind_at(ts, p + 1 + toks_list(v).len()) == close,
        close == TokenType::RParen || close == TokenType::RBracket,
        p < ts.len(),
    ensures
        plist(ts, p, close) == (Some(v), p + 1 + toks_list(v).len()),
    decreases v, v.len() + 1,
{
    if v.len() == 0 {
        assert(toks_list(v).len() == 0);
    } else {
        lemma_toks_list_prefix(v, 1);
        assert(v.take(1).drop_last().len() == 0);
        let t0 = toks(v[0]);
        assert(toks_list(v.take(1)) == t0);
        assert forall|j: int| 0 <= j < t0.len() implies token_m(#[trigger] ts[(p + 1) + j])
            == t0[j] by {
            assert(toks_list(v)[j] == t0[j]);
        }
        lemma_plain_list(v, 0);
        lemma_toks_len(v[0]);
        lemma_parse_expr(v[0], ts, p + 1, LOWEST);
        let e0 = p + t0.len();
        if v.len() > 1 {
            lemma_toks_list_step(v, 1);
            lemma_toks_list_prefix(v, 2);
            assert(toks_list(v.take(2))[t0.len() as int] == (TokenType::Comma, ","@));
            assert(token_m(ts[(p + 1) + t0.len()]) == toks_list(v)[t0.len() as int]);
            assert(kind_at(ts, e0 + 1) == TokenType::Comma);
        } else {
            assert(v.take(1) =~= v);
            assert(kind_at(ts, e0 + 1) == close);
        }
        assert(pinfix(ts, v[0], e0, LOWEST) == (Some(v[0]), e0));
        assert(seq![v[0]] =~= v.take(1));
        lemma_parse_list_more(v, 1, ts, p, close);
    }
}

/// Parsing a plain expression with a power below a call's goes on exactly as
/// if the expression had already been read.
proof fn lemma_parse_expr(e: ExprM, ts: Seq<Token>, p: int, prec: u8)
    requires
        plain(e),
        holds_at(ts, p, toks(e)),
        prec < 6,
    ensures
        pexpr(ts, p, prec) == pinfix(ts, e, p + toks(e).len() - 1, prec),
    decreases e, 2int,
{
    lemma_toks_len(e);
    if e is Call {
        lemma_parse_call(e, ts, p, prec);
    } else {
        lemma_parse_plain(e, ts, p);
    }
}

proof fn lemma_parse_call(e: ExprM, ts: Seq<Token>, p: int, prec: u8)
    requires
        e is Call,
        plain(e),
        holds_at(ts, p, toks(e)),
        prec < 6,
    ensures
        pexpr(ts, p, prec) == pinfix(ts, e, p + toks(e).len() - 1, prec),
    decreases e, 0int,
{
    let f = e->Call_0;
    let args = e->Call_1;
    assert(e == ExprM::Call(f, args));
    let m = toks(e);
    let tf = toks(*f);
    let ta = toks_list(args);
    lemma_toks_len(*f);
    assert(m == tf + seq![(TokenType::LParen, "("@)] + ta + seq![(TokenType::RParen, ")"@)]);
    assert forall|j: int| 0 <= j < tf.len() implies token_m(#[trigger] ts[p + j]) == tf[j] by {
        assert(m[j] == tf[j]);
    }
    let ef = p + tf.len() - 1;
    assert(token_m(ts[p + tf.len()]) == m[tf.len() as int]);
    assert(kind_at(ts, ef + 1) == TokenType::LParen);
    assert forall|j: int| 0 <= j < ta.len() implies token_m(#[trigger] ts[(ef + 2) + j]) == ta[j] by {
        assert(m[tf.len() + 1 + j] == ta[j]);
        assert(token_m(ts[p + (tf.len() + 1 + j)]) == m[tf.len() + 1 + j]);
    }
    assert(token_m(ts[p + (tf.len() + 1 + ta.len())]) == m[tf.len() + 1 + ta.len() as int]);
    assert(kind_at(ts, ef + 2 + ta.len()) == TokenType::RParen);
    lemma_parse_expr(*f, ts, p, prec);
    lemma_parse_list(args, ts, ef + 1, TokenType::RParen);
    let end = ef + 2 + ta.len();
    assert(end == p + m.len() - 1);
    assert(pcall(ts, *f, ef + 1) == (Some(e), end));
    assert(pinfix(ts, *f, ef, prec) == pinfix(ts, e, end, prec));
}

proof fn lemma_parse_plain(e: ExprM, ts: Seq<Token>, p: int)
    requires
        plain(e),
        !(e is Call),
        holds_at(ts, p, toks(e)),
    ensures
        pprefix(ts, p) == (Some(e), p + toks(e).len() - 1),
    decreases e, 1int,
{
    let m = toks(e);
    assert(token_m(ts[p + 0]) == m[0]);
    assert(kind_at(ts, p) == m[0].0);
    match e {
        ExprM::Lit(LitM::Integer(n)) => {
            lemma_nat_text(n as nat);
            assert(text_at(ts, p) == nat_text(n as nat));
            assert(int_literal(nat_text(n as nat)) == Some(n));
        },
        ExprM::Lit(LitM::Boolean(b)) => {},
        ExprM::Ident(x) => {
            assert(text_at(ts, p) == x);
        },
        ExprM::Infix(_, _, _) => lemma_parse_infix(e, ts, p),
        ExprM::Prefix(_, _) => lemma_parse_prefix(e, ts, p),
        ExprM::Index(_, _) => lemma_parse_index(e, ts, p),
        ExprM::Lit(LitM::Array(v)) => {
            let tv = toks_list(v);
            assert(m == seq![(TokenType::LBracket, "["@)] + tv + seq![(TokenType::RBracket, "]"@)]);
            assert forall|j: int| 0 <= j < tv.len() implies token_m(#[trigger] ts[(p + 1) + j])
                == tv[j] by {
                assert(token_m(ts[p + (1 + j)]) == m[1 + j]);
            }
            assert(token_m(ts[p + (1 + tv.len())]) == m[1 + tv.len() as int]);
            lemma_parse_list(v, ts, p, TokenType::RBracket);
        },
        _ => {},
    }
}

proof fn lemma_parse_infix(e: ExprM, ts: Seq<Token>, p: int)
    requires
        e is Infix,
        plain(e),
        holds_at(ts, p, toks(e)),
    ensures
        pprefix(ts, p) == (Some(e), p + toks(e).len() - 1),
    decreases e, 0int,
{
    let l = e->Infix_0;
    let op = e->Infix_1;
    let r = e->Infix_2;
    assert(e == ExprM::Infix(l, op, r));
    let m = toks(e);
    assert(token_m(ts[p + 0]) == m[0]);
    lemma_toks_len(*l);
    lemma_toks_len(*r);
    let ml = toks(*l);
    let mr = toks(*r);
    let p1 = p + 1;
    let q = p1 + ml.len() - 1;
    let p2 = q + 2;
    let q2 = p2 + mr.len() - 1;
    assert(m.len() == ml.len() + mr.len() + 3);
    assert forall|k: int| 0 <= k < ml.len() implies token_m(#[trigger] ts[p1 + k]) == ml[k] by {
        assert(token_m(ts[p + (1 + k)]) == m[1 + k]);
    }
    assert forall|k: int| 0 <= k < mr.len() implies token_m(#[trigger] ts[p2 + k]) == mr[k] by {
        assert(token_m(ts[p + (ml.len() + 2 + k)]) == m[ml.len() + 2 + k]);
    }
    assert(token_m(ts[p + (ml.len() + 1)]) == m[ml.len() + 1 as int]);
    assert(token_m(ts[p + (ml.len() + mr.len() + 2)]) == m[ml.len() + mr.len() + 2 as int]);
    assert(kind_at(ts, q + 1) == op_kind(op));
    assert(kind_at(ts, q2 + 1) == TokenType::RParen);
    lemma_parse_expr(*l, ts, p1, LOWEST);
    lemma_parse_expr(*r, ts, p2, power(op_kind(op)));
    let k = op_kind(op);
    assert(infix_of(k) == Some(op));
    assert(pinfix(ts, *r, q2, power(k)) == (Some(*r), q2));
    assert(pexpr(ts, p2, power(k)) == (Some(*r), q2));
    assert(pbinary(ts, *l, q + 1) == (Some(e), q2));
    assert(pinfix(ts, e, q2, LOWEST) == (Some(e), q2));
    assert(pinfix(ts, *l, q, LOWEST) == (Some(e), q2));
    assert(pexpr(ts, p1, LOWEST) == (Some(e), q2));
    assert(pgroup(ts, p) == (Some(e), q2 + 1));
}

proof fn lemma_parse_prefix(e: ExprM, ts: Seq<Token>, p: int)
    requires
        e is Prefix,
        plain(e),
        holds_at(ts, p, toks(e)),
    ensures
        pprefix(ts, p) == (Some(e), p + toks(e).len() - 1),
    decreases e, 0int,
{
    let op = e->Prefix_0;
    let r = e->Prefix_1;
    assert(e == ExprM::Prefix(op, r));
    let m = toks(e);
    assert(token_m(ts[p + 0]) == m[0]);
    lemma_toks_len(*r);
    let mr = toks(*r);
    let p2 = p + 2;
    let q2 = p2 + mr.len() - 1;
    assert(m.len() == mr.len() + 3);
    assert(token_m(ts[p + 1]) == m[1]);
    assert forall|k: int| 0 <= k < mr.len() implies token_m(#[trigger] ts[p2 + k]) == mr[k] by {
        assert(token_m(ts[p + (2 + k)]) == m[2 + k]);
    }
    assert(token_m(ts[p + (mr.len() + 2)]) == m[mr.len() + 2 as int]);
    assert(kind_at(ts, p + 1) == prefix_kind(op));
    assert(kind_at(ts, q2 + 1) == TokenType::RParen);
    lemma_parse_expr(*r, ts, p2, 5);
    assert(pinfix(ts, *r, q2, 5) == (Some(*r), q2));
    assert(pexpr(ts, p2, 5) == (Some(*r), q2));
    assert(punary(ts, p + 1) == (Some(e), q2));
    assert(pprefix(ts, p + 1) == (Some(e), q2));
    assert(pinfix(ts, e, q2, LOWEST) == (Some(e), q2));
    assert(pexpr(ts, p + 1, LOWEST) == (Some(e), q2));
    assert(pgroup(ts, p) == (Some(e), q2 + 1));
}

proof fn lemma_parse_index(e: ExprM, ts: Seq<Token>, p: int)
    requires
        e is Index,
        plain(e),
        holds_at(ts, p, toks(e)),
    ensures
        pprefix(ts, p) == (Some(e), p + toks(e).len() - 1),
    decreases e, 0int,
{
    let l = e->Index_0;
    let x = e->Index_1;
    assert(e == ExprM::Index(l, x));
    let m = toks(e);
    assert(token_m(ts[p + 0]) == m[0]);
    lemma_toks_len(*l);
    lemma_toks_len(*x);
    let ml = toks(*l);
    let mx = toks(*x);
    let p1 = p + 1;
    let q = p1 + ml.len() - 1;
    let p2 = q + 2;
    let q2 = p2 + mx.len() - 1;
    assert(m.len() == ml.len() + mx.len() + 4);
    assert forall|k: int| 0 <= k < ml.len() implies token_m(#[trigger] ts[p1 + k]) == ml[k] by {
        assert(token_m(ts[p + (1 + k)]) == m[1 + k]);
    }
    assert forall|k: int| 0 <= k < mx.len() implies token_m(#[trigger] ts[p2 + k]) == mx[k] by {
        assert(token_m(ts[p + (ml.len() + 2 + k)]) == m[ml.len() + 2 + k]);
    }
    assert(token_m(ts[p + (ml.len() + 1)]) == m[ml.len() + 1 as int]);
    assert(token_m(ts[p + (ml.len() + mx.len() + 2)]) == m[ml.len() + mx.len() + 2 as int]);
    assert(token_m(ts[p + (ml.len() + mx.len() + 3)]) == m[ml.len() + mx.len() + 3 as int]);
    assert(kind_at(ts, q + 1) == TokenType::LBracket);
    assert(kind_at(ts, q2 + 1) == TokenType::RBracket);
    assert(kind_at(ts, q2 + 2) == TokenType::RParen);
    lemma_parse_expr(*l, ts, p1, LOWEST);
    lemma_parse_expr(*x, ts, p2, LOWEST);
    assert(pinfix(ts, *x, q2, LOWEST) == (Some(*x), q2));
    assert(pexpr(ts, p2, LOWEST) == (Some(*x), q2));
    assert(pindex(ts, *l, q + 1) == (Some(e), q2 + 1));
    assert(pinfix(ts, e, q2 + 1, LOWEST) == (Some(e), q2 + 1));
    assert(pinfix(ts, *l, q, LOWEST) == (Some(e), q2 + 1));
    assert(pexpr(ts, p1, LOWEST) == (Some(e), q2 + 1));
    assert(pgroup(ts, p) == (Some(e), q2 + 2));
}

/// Rendering is a fixed point of parsing on plain expressions: when a token
/// stream parses to a single plain expression statement, the tokens of its
/// rendering parse to a program with the same rendering.
pub proof fn law_render_parse_round_trip(ts1: Seq<Token>, ts2: Seq<Token>, e: ExprM)
    requires
        program_of(ts1) == seq![StmtM::Expr(e)],
        plain(e),
        ts2.map_values(|t: Token| token_m(t)) == lex(show_program(program_of(ts1))),
    ensures
        show_program(program_of(ts2)) == show_program(program_of(ts1)),
{
    let cs = show_expr(e);
    assert(show_program(program_of(ts1)) == show_stmts(seq![StmtM::Expr(e)], "\n"@));
    assert(show_stmts(seq![StmtM::Expr(e)], "\n"@) == show_stmt(StmtM::Expr(e)));
    assert(show_program(program_of(ts1)) == cs);
    assert(cs.subrange(0, cs.len() as int) =~= cs);
    lemma_lex_plain(e, cs, 0);
    reveal(lex_from);
    assert(lex_from(cs, cs.len() as int) == Seq::<(TokenType, Seq<char>)>::empty());
    let m = toks(e);
    assert(lex(cs) =~= m.push((TokenType::Eof, Seq::empty())));
    let n = m.len() as int;
    assert(ts2.len() == n + 1);
    assert forall|k: int| 0 <= k < n implies token_m(#[trigger] ts2[0 + k]) == m[k] by {
        assert(ts2.map_values(|t: Token| token_m(t))[k] == token_m(ts2[k]));
    }
    assert(ts2.map_values(|t: Token| token_m(t))[n] == token_m(ts2[n]));
    assert(kind_at(ts2, n) == TokenType::Eof);
    lemma_toks_len(e);
    lemma_parse_expr(e, ts2, 0, LOWEST);
    assert(token_m(ts2[0]) == m[0]);
    if let ExprM::Ident(x) = e {
        assert(n == 1);
    }
    assert(pexpr(ts2, 0, LOWEST) == (Some(e), n - 1));
    assert(pstmt(ts2, 0) == (Some(StmtM::Expr(e)), n - 1));
    assert(pstmts(ts2, seq![StmtM::Expr(e)], n, false) == (seq![StmtM::Expr(e)], n));
    assert(Seq::<StmtM>::empty().push(StmtM::Expr(e)) == seq![StmtM::Expr(e)]);
    assert(program_of(ts2) == seq![StmtM::Expr(e)]);
}

/// Operators bind by their power, and equal powers group to the left: in
/// `x o1 y o2 z` over plain operands that are not themselves operations,
/// `o2` takes `y` first exactly when it binds tighter than `o1`.
pub proof fn law_binding_power(
    ts: Seq<Token>,
    x: ExprM,
    o1: InfixOp,
    y: ExprM,
    o2: InfixOp,
    z: ExprM,
)
    requires
        plain(x) && !(x is Call) && toks(x).len() == 1,
        plain(y) && !(y is Call) && toks(y).len() == 1,
        plain(z) && !(z is Call) && toks(z).len() == 1,
        holds_at(ts, 0, toks(x) + seq![(op_kind(o1), infix_text(o1))] + toks(y) + seq![
            (op_kind(o2), infix_text(o2)),
        ] + toks(z)),
        ts.len() == 5,
    ensures
        pexpr(ts, 0, LOWEST) == (
            Some(
                if power(op_kind(o1)) < power(op_kind(o2)) {
                    ExprM::Infix(Box::new(x), o1, Box::new(ExprM::Infix(Box::new(y), o2, Box::new(z))))
                } else {
                    ExprM::Infix(Box::new(ExprM::Infix(Box::new(x), o1, Box::new(y))), o2, Box::new(z))
                },
            ),
            4int,
        ),
{
    let m = toks(x) + seq![(op_kind(o1), infix_text(o1))] + toks(y) + seq![
        (op_kind(o2), infix_text(o2)),
    ] + toks(z);
    assert(toks(x).len() == 1 && toks(y).len() == 1 && toks(z).len() == 1);
    assert(m.len() == 5);
    assert(token_m(ts[0int + 0int]) == m[0]);
    assert(token_m(ts[0int + 1int]) == m[1]);
    assert(token_m(ts[0int + 2int]) == m[2]);
    assert(token_m(ts[0int + 3int]) == m[3]);
    assert(token_m(ts[0int + 4int]) == m[4]);
    assert(holds_at(ts, 0, toks(x)));
    assert(token_m(ts[2int + 0int]) == toks(y)[0]);
    assert(holds_at(ts, 2, toks(y)));
    assert(token_m(ts[4int + 0int]) == toks(z)[0]);
    assert(holds_at(ts, 4, toks(z)));
    lemma_parse_plain(x, ts, 0);
    lemma_parse_plain(y, ts, 2);
    lemma_parse_plain(z, ts, 4);
    let k1 = op_kind(o1);
    let k2 = op_kind(o2);
    assert(kind_at(ts, 1) == k1);
    assert(kind_at(ts, 3) == k2);
    assert(kind_at(ts, 5) == TokenType::Eof);
    assert(infix_of(k1) == Some(o1));
    assert(infix_of(k2) == Some(o2));
    let p1 = power(k1);
    let p2 = power(k2);
    assert(pinfix(ts, z, 4, p2) == (Some(z), 4int));
    assert(pexpr(ts, 4, p2) == (Some(z), 4int));
    let yz = ExprM::Infix(Box::new(y), o2, Box::new(z));
    let xy = ExprM::Infix(Box::new(x), o1, Box::new(y));
    assert(pbinary(ts, y, 3) == (Some(yz), 4int));
    assert(pbinary(ts, xy, 3) == (Some(ExprM::Infix(Box::new(xy), o2, Box::new(z))), 4int));
    if p1 < p2 {
        assert(pinfix(ts, yz, 4, p1) == (Some(yz), 4int));
        assert(pinfix(ts, y, 2, p1) == (Some(yz), 4int));
        assert(pexpr(ts, 2, p1) == (Some(yz), 4int));
        let e = ExprM::Infix(Box::new(x), o1, Box::new(yz));
        assert(pbinary(ts, x, 1) == (Some(e), 4int));
        assert(pinfix(ts, e, 4, LOWEST) == (Some(e), 4int));
        assert(pinfix(ts, x, 0, LOWEST) == (Some(e), 4int));
    } else {
        assert(pinfix(ts, y, 2, p1) == (Some(y), 2int));
        assert(pexpr(ts, 2, p1) == (Some(y), 2int));
        assert(pbinary(ts, x, 1) == (Some(xy), 2int));
        let e = ExprM::Infix(Box::new(xy), o2, Box::new(z));
        assert(pinfix(ts, e, 4, LOWEST) == (Some(e), 4int));
        assert(pinfix(ts, xy, 2, LOWEST) == (Some(e), 4int));
        assert(pinfix(ts, x, 0, LOWEST) == (Some(e), 4int));
    }
}

} // verus!
