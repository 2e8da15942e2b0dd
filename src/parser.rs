use vstd::prelude::*;

use crate::ast::{
    expr_m, lit_m, exprs_m, idents_m, lemma_exprs_m_push, lemma_pairs_m_push, lemma_stmts_m_push, pairs_m,
    stmt_m, stmts_m, ExprM, Expression, Identifier, InfixOp, LitM, Literal, PrefixOp, Program,
    Statement, StmtM,
};
use crate::lexer::{copy_chars, Token, TokenType};

verus! {

// Binding powers, lowest to highest.
pub const LOWEST: u8 = 0;
pub const EQUALS: u8 = 1;
pub const LESS_GREATER: u8 = 2;
pub const SUM: u8 = 3;
pub const PRODUCT: u8 = 4;
pub const PREFIX: u8 = 5;
pub const CALL: u8 = 6;
pub const INDEX: u8 = 7;
pub const DOT: u8 = 8;

/// The kind of the token at `i`; past either end the stream reads as `Eof`.
pub open spec fn kind_at(ts: Seq<Token>, i: int) -> TokenType {
    if 0 <= i < ts.len() {
        ts[i].ttype
    } else {
        TokenType::Eof
    }
}

pub open spec fn text_at(ts: Seq<Token>, i: int) -> Seq<char> {
    if 0 <= i < ts.len() {
        ts[i].literal@
    } else {
        Seq::empty()
    }
}

/// The binding power with which a token extends the expression before it.
pub open spec fn power(t: TokenType) -> u8 {
    match t {
        TokenType::Assign | TokenType::NotEq | TokenType::Eq => EQUALS,
        TokenType::Lt | TokenType::Gt => LESS_GREATER,
        TokenType::Add | TokenType::Sub => SUM,
        TokenType::Div | TokenType::Mul => PRODUCT,
        TokenType::LParen => CALL,
        TokenType::LBracket => INDEX,
        TokenType::Period => DOT,
        _ => LOWEST,
    }
}

pub open spec fn infix_of(t: TokenType) -> Option<InfixOp> {
    match t {
        TokenType::Add => Some(InfixOp::Add),
        TokenType::Sub => Some(InfixOp::Sub),
        TokenType::Mul => Some(InfixOp::Mul),
        TokenType::Div => Some(InfixOp::Div),
        TokenType::Lt => Some(InfixOp::Lt),
        TokenType::Gt => Some(InfixOp::Gt),
        TokenType::Eq => Some(InfixOp::Eq),
        TokenType::NotEq => Some(InfixOp::NotEq),
        TokenType::Assign => Some(InfixOp::Assign),
        _ => None,
    }
}

pub open spec fn digit_value(c: char) -> int {
    c as int - '0' as int
}

pub open spec fn all_digits(s: Seq<char>) -> bool {
    forall|i: int| 0 <= i < s.len() ==> '0' <= #[trigger] s[i] && s[i] <= '9'
}

/// The number that a run of decimal digits denotes.
pub open spec fn decimal_value(s: Seq<char>) -> int
    decreases s.len(),
{
    if s.len() == 0 {
        0
    } else {
        10 * decimal_value(s.drop_last()) + digit_value(s.last())
    }
}

/// An integer literal: a non-empty run of digits whose value fits in `i64`.
pub open spec fn int_literal(s: Seq<char>) -> Option<i64> {
    if s.len() > 0 && all_digits(s) && decimal_value(s) <= i64::MAX {
        Some(decimal_value(s) as i64)
    } else {
        None
    }
}

pub proof fn lemma_decimal_prefix(s: Seq<char>, k: int)
    requires
        all_digits(s),
        0 <= k <= s.len(),
    ensures
        0 <= decimal_value(s.subrange(0, k)) <= decimal_value(s),
    decreases s.len(),
{
    if s.len() > 0 {
        if k == s.len() {
            assert(s.subrange(0, k) =~= s);
            lemma_decimal_prefix(s.drop_last(), 0);
        } else {
            assert(all_digits(s.drop_last()));
            lemma_decimal_prefix(s.drop_last(), k);
            assert(s.drop_last().subrange(0, k) =~= s.subrange(0, k));
        }
    } else {
        assert(s.subrange(0, k) =~= s);
    }
}

/// A trailing `;` after position `p` is consumed.
pub open spec fn skip_semi(ts: Seq<Token>, p: int) -> int {
    if kind_at(ts, p + 1) == TokenType::Semicolon {
        p + 1
    } else {
        p
    }
}

/// An expression at `pos` whose infix operators bind tighter than `prec`;
/// the result ends on the expression's last token.
pub open spec fn pexpr(ts: Seq<Token>, pos: int, prec: u8) -> (Option<ExprM>, int)
    decreases ts.len() - pos, 4int,
{
    let (left, p1) = pprefix(ts, pos);
    match left {
        None => (None, p1),
        Some(l) => if pos <= p1 <= ts.len() {
            pinfix(ts, l, p1, prec)
        } else {
            (Some(l), p1)
        },
    }
}

/// Extends `left`, which ends at `pos`, by operators that bind tighter than `prec`.
pub open spec fn pinfix(ts: Seq<Token>, left: ExprM, pos: int, prec: u8) -> (Option<ExprM>, int)
    decreases ts.len() - pos, 1int,
{
    let pk = kind_at(ts, pos + 1);
    if pk != TokenType::Semicolon && prec < power(pk) {
        let q = pos + 1;
        let (r, p2) = if pk == TokenType::LParen {
            pcall(ts, left, q)
        } else if pk == TokenType::LBracket {
            pindex(ts, left, q)
        } else if pk == TokenType::Period {
            pdot(ts, left, q)
        } else {
            pbinary(ts, left, q)
        };
        match r {
            None => (None, p2),
            Some(l2) => if q <= p2 <= ts.len() {
                pinfix(ts, l2, p2, prec)
            } else {
                (Some(l2), p2)
            },
        }
    } else {
        (Some(left), pos)
    }
}

pub open spec fn pbinary(ts: Seq<Token>, left: ExprM, pos: int) -> (Option<ExprM>, int)
    decreases ts.len() - pos, 2int,
{
    if 0 <= pos < ts.len() {
        let k = kind_at(ts, pos);
        let (right, p1) = pexpr(ts, pos + 1, power(k));
        match (right, infix_of(k)) {
            (Some(r), Some(op)) => (Some(ExprM::Infix(Box::new(left), op, Box::new(r))), p1),
            _ => (None, p1),
        }
    } else {
        (None, pos)
    }
}

pub open spec fn pcall(ts: Seq<Token>, left: ExprM, pos: int) -> (Option<ExprM>, int)
    decreases ts.len() - pos, 2int,
{
    let (args, p1) = plist(ts, pos, TokenType::RParen);
    match args {
        Some(a) => (Some(ExprM::Call(Box::new(left), a)), p1),
        None => (None, p1),
    }
}

pub open spec fn pindex(ts: Seq<Token>, left: ExprM, pos: int) -> (Option<ExprM>, int)
    decreases ts.len() - pos, 2int,
{
    if 0 <= pos < ts.len() {
        let (idx, p1) = pexpr(ts, pos + 1, LOWEST);
        match idx {
            Some(i) => if kind_at(ts, p1 + 1) == TokenType::RBracket {
                (Some(ExprM::Index(Box::new(left), Box::new(i))), p1 + 1)
            } else {
                (None, p1)
            },
            None => (None, p1),
        }
    } else {
        (None, pos)
    }
}

pub open spec fn pdot(ts: Seq<Token>, left: ExprM, pos: int) -> (Option<ExprM>, int)
    decreases ts.len() - pos, 2int,
{
    if 0 <= pos < ts.len() {
        let (right, p1) = pexpr(ts, pos + 1, DOT);
        match right {
            Some(r) => (Some(ExprM::Dot(Box::new(left), Box::new(r))), p1),
            None => (None, p1),
        }
    } else {
        (None, pos)
    }
}

/// The expression that begins at `pos`, before any infix operator.
pub open spec fn pprefix(ts: Seq<Token>, pos: int) -> (Option<ExprM>, int)
    decreases ts.len() - pos, 3int,
{
    let k = kind_at(ts, pos);
    if k == TokenType::Ident {
        (Some(ExprM::Ident(text_at(ts, pos))), pos)
    } else if k == TokenType::String {
        (Some(ExprM::Lit(LitM::Str(text_at(ts, pos)))), pos)
    } else if k == TokenType::Number {
        match int_literal(text_at(ts, pos)) {
            Some(n) => (Some(ExprM::Lit(LitM::Integer(n))), pos),
            None => (None, pos),
        }
    } else if k == TokenType::True || k == TokenType::False {
        (Some(ExprM::Lit(LitM::Boolean(k == TokenType::True))), pos)
    } else if k == TokenType::Bang || k == TokenType::Sub {
        punary(ts, pos)
    } else if k == TokenType::LBrace {
        phash(ts, Seq::empty(), pos)
    } else if k == TokenType::LParen {
        pgroup(ts, pos)
    } else if k == TokenType::LBracket {
        let (elems, p1) = plist(ts, pos, TokenType::RBracket);
        match elems {
            Some(e) => (Some(ExprM::Lit(LitM::Array(e))), p1),
            None => (None, p1),
        }
    } else if k == TokenType::If {
        pif(ts, pos)
    } else if k == TokenType::Fn {
        pfn(ts, pos)
    } else {
        (None, pos)
    }
}

pub open spec fn punary(ts: Seq<Token>, pos: int) -> (Option<ExprM>, int)
    decreases ts.len() - pos, 2int,
{
    if 0 <= pos < ts.len() {
        let op = if kind_at(ts, pos) == TokenType::Bang {
            PrefixOp::Bang
        } else {
            PrefixOp::Minus
        };
        let (right, p1) = pexpr(ts, pos + 1, PREFIX);
        match right {
            Some(r) => (Some(ExprM::Prefix(op, Box::new(r))), p1),
            None => (None, p1),
        }
    } else {
        (None, pos)
    }
}

pub open spec fn pgroup(ts: Seq<Token>, pos: int) -> (Option<ExprM>, int)
    decreases ts.len() - pos, 2int,
{
    if 0 <= pos < ts.len() {
        let (e, p1) = pexpr(ts, pos + 1, LOWEST);
        if kind_at(ts, p1 + 1) == TokenType::RParen {
            (e, p1 + 1)
        } else {
            (None, p1)
        }
    } else {
        (None, pos)
    }
}

/// Comma-separated expressions after the opener at `pos`, up to `close`.
pub open spec fn plist(ts: Seq<Token>, pos: int, close: TokenType) -> (Option<Seq<ExprM>>, int)
    decreases ts.len() - pos, 1int,
{
    if 0 <= pos < ts.len() {
        if kind_at(ts, pos + 1) == close {
            (Some(Seq::empty()), pos + 1)
        } else {
            let (e, p1) = pexpr(ts, pos + 1, LOWEST);
            match e {
                Some(x) => if pos < p1 <= ts.len() {
                    plist_more(ts, seq![x], p1, close)
                } else {
                    (None, p1)
                },
                None => (None, p1),
            }
        }
    } else {
        (None, pos)
    }
}

pub open spec fn plist_more(ts: Seq<Token>, acc: Seq<ExprM>, pos: int, close: TokenType) -> (
    Option<Seq<ExprM>>,
    int,
)
    decreases ts.len() - pos, 1int,
{
    if kind_at(ts, pos + 1) == TokenType::Comma {
        let (e, p1) = pexpr(ts, pos + 2, LOWEST);
        match e {
            Some(x) => if pos + 2 <= p1 <= ts.len() {
                plist_more(ts, acc.push(x), p1, close)
            } else {
                (None, p1)
            },
            None => (None, p1),
        }
    } else if kind_at(ts, pos + 1) == close {
        (Some(acc), pos + 1)
    } else {
        (None, pos)
    }
}

/// `key: value` pairs after `pos`, separated by commas, up to `}`.
pub open spec fn phash(ts: Seq<Token>, acc: Seq<(ExprM, ExprM)>, pos: int) -> (Option<ExprM>, int)
    decreases ts.len() - pos, 1int,
{
    if 0 <= pos < ts.len() {
        if kind_at(ts, pos + 1) == TokenType::RBrace {
            (Some(ExprM::Lit(LitM::Hash(acc))), pos + 1)
        } else {
            let (k, p1) = pexpr(ts, pos + 1, LOWEST);
            match k {
                None => (None, p1),
                Some(key) => if pos < p1 <= ts.len() && kind_at(ts, p1 + 1) == TokenType::Colon {
                    let (v, p2) = pexpr(ts, p1 + 2, LOWEST);
                    match v {
                        None => (None, p2),
                        Some(value) => if p1 + 2 <= p2 <= ts.len() {
                            if kind_at(ts, p2 + 1) == TokenType::RBrace {
                                phash(ts, acc.push((key, value)), p2)
                            } else if kind_at(ts, p2 + 1) == TokenType::Comma {
                                phash(ts, acc.push((key, value)), p2 + 1)
                            } else {
                                (None, p2)
                            }
                        } else {
                            (None, p2)
                        },
                    }
                } else {
                    (None, p1)
                },
            }
        }
    } else {
        (None, pos)
    }
}

/// The parameter names of a function literal, after the `(` at `pos`.
pub open spec fn pparams(ts: Seq<Token>, acc: Seq<Seq<char>>, pos: int, first: bool) -> (
    Option<Seq<Seq<char>>>,
    int,
)
    decreases ts.len() - pos,
{
    if first && kind_at(ts, pos + 1) == TokenType::RParen {
        (Some(acc), pos + 1)
    } else if first && kind_at(ts, pos + 1) == TokenType::Ident {
        pparams(ts, acc.push(text_at(ts, pos + 1)), pos + 1, false)
    } else if !first && kind_at(ts, pos + 1) == TokenType::Comma && kind_at(ts, pos + 2)
        == TokenType::Ident {
        pparams(ts, acc.push(text_at(ts, pos + 2)), pos + 2, false)
    } else if !first && kind_at(ts, pos + 1) == TokenType::RParen {
        (Some(acc), pos + 1)
    } else {
        (None, pos)
    }
}

pub open spec fn pif(ts: Seq<Token>, pos: int) -> (Option<ExprM>, int)
    decreases ts.len() - pos, 2int,
{
    if 0 <= pos < ts.len() {
        let (c, p1) = pexpr(ts, pos + 1, LOWEST);
        if pos < p1 <= ts.len() && kind_at(ts, p1 + 1) == TokenType::LBrace {
            let (cons, p2) = pstmts(ts, Seq::empty(), p1 + 2, true);
            if p1 + 1 < p2 <= ts.len() {
                if kind_at(ts, p2 + 1) == TokenType::Else {
                    if kind_at(ts, p2 + 2) == TokenType::LBrace {
                        let (alt, p3) = pstmts(ts, Seq::empty(), p2 + 3, true);
                        match c {
                            Some(cond) => (Some(ExprM::If(Box::new(cond), cons, Some(alt))), p3),
                            None => (None, p3),
                        }
                    } else {
                        (None, p2 + 1)
                    }
                } else {
                    match c {
                        Some(cond) => (Some(ExprM::If(Box::new(cond), cons, None)), p2),
                        None => (None, p2),
                    }
                }
            } else {
                (None, p2)
            }
        } else {
            (None, p1)
        }
    } else {
        (None, pos)
    }
}

pub open spec fn pfn(ts: Seq<Token>, pos: int) -> (Option<ExprM>, int)
    decreases ts.len() - pos, 2int,
{
    if 0 <= pos < ts.len() && kind_at(ts, pos + 1) == TokenType::LParen {
        let (ps, p1) = pparams(ts, Seq::empty(), pos + 1, true);
        match ps {
            Some(params) => if pos < p1 && kind_at(ts, p1 + 1) == TokenType::LBrace {
                let (body, p2) = pstmts(ts, Seq::empty(), p1 + 2, true);
                (Some(ExprM::Func(params, body)), p2)
            } else {
                (None, p1)
            },
            None => (None, p1),
        }
    } else {
        (None, pos)
    }
}

/// Statements from `pos` on, up to `}` inside a block or to the end of input;
/// a statement that does not parse is left out.
pub open spec fn pstmts(ts: Seq<Token>, acc: Seq<StmtM>, pos: int, in_block: bool) -> (
    Seq<StmtM>,
    int,
)
    decreases ts.len() - pos, 9int,
{
    let k = kind_at(ts, pos);
    if k == TokenType::Eof || (in_block && k == TokenType::RBrace) {
        (acc, pos)
    } else {
        let (s, p1) = pstmt(ts, pos);
        let acc2 = match s {
            Some(x) => acc.push(x),
            None => acc,
        };
        if pos <= p1 <= ts.len() {
            pstmts(ts, acc2, if p1 < ts.len() { p1 + 1 } else { p1 }, in_block)
        } else {
            (acc2, p1)
        }
    }
}

pub open spec fn pstmt(ts: Seq<Token>, pos: int) -> (Option<StmtM>, int)
    decreases ts.len() - pos, 8int,
{
    let k = kind_at(ts, pos);
    if k == TokenType::Let {
        if kind_at(ts, pos + 1) == TokenType::Ident && kind_at(ts, pos + 2) == TokenType::Assign {
            let (v, p1) = pexpr(ts, pos + 3, LOWEST);
            match v {
                Some(e) => (Some(StmtM::Let(text_at(ts, pos + 1), e)), skip_semi(ts, p1)),
                None => (None, p1),
            }
        } else {
            (None, pos)
        }
    } else if k == TokenType::Return {
        let (v, p1) = pexpr(ts, pos + 1, LOWEST);
        match v {
            Some(e) => (Some(StmtM::Return(e)), skip_semi(ts, p1)),
            None => (None, p1),
        }
    } else if k == TokenType::Ident && kind_at(ts, pos + 1) == TokenType::Assign {
        let (v, p1) = pexpr(ts, pos + 2, LOWEST);
        match v {
            Some(e) => (Some(StmtM::ReAssign(text_at(ts, pos), e)), skip_semi(ts, p1)),
            None => (None, p1),
        }
    } else {
        let (v, p1) = pexpr(ts, pos, LOWEST);
        match v {
            Some(e) => (Some(StmtM::Expr(e)), skip_semi(ts, p1)),
            None => (None, skip_semi(ts, p1)),
        }
    }
}

/// The program that a token stream denotes.
pub open spec fn program_of(ts: Seq<Token>) -> Seq<StmtM> {
    pstmts(ts, Seq::empty(), 0, false).0
}

pub open spec fn opt_expr_m(o: Option<Expression>) -> Option<ExprM> {
    match o {
        Some(e) => Some(expr_m(e)),
        None => None,
    }
}

pub open spec fn opt_stmt_m(o: Option<Statement>) -> Option<StmtM> {
    match o {
        Some(s) => Some(stmt_m(s)),
        None => None,
    }
}

pub open spec fn opt_exprs_m(o: Option<Vec<Expression>>) -> Option<Seq<ExprM>> {
    match o {
        Some(v) => Some(exprs_m(v@)),
        None => None,
    }
}

pub open spec fn opt_idents_m(o: Option<Vec<Identifier>>) -> Option<Seq<Seq<char>>> {
    match o {
        Some(v) => Some(idents_m(v@)),
        None => None,
    }
}

/// The value of an integer literal's text, or `None` when it is not a run of
/// digits or does not fit in `i64`.
pub fn parse_int(s: &Vec<char>) -> (r: Option<i64>)
    ensures
        r == int_literal(s@),
{
    let n = s.len();
    if n == 0 {
        return None;
    }
    let mut i: usize = 0;
    while i < n
        invariant
            i <= n == s.len(),
            forall|k: int| 0 <= k < i ==> '0' <= #[trigger] s@[k] && s@[k] <= '9',
        decreases n - i,
    {
        if !('0' <= s[i] && s[i] <= '9') {
            return None;
        }
        i += 1;
    }
    assert(all_digits(s@));
    let mut acc: i64 = 0;
    i = 0;
    while i < n
        invariant
            i <= n == s.len(),
            all_digits(s@),
            0 <= acc,
            acc == decimal_value(s@.subrange(0, i as int)),
        decreases n - i,
    {
        let c = s[i];
        assert('0' <= s@[i as int] && s@[i as int] <= '9');
        let d: i64 = (c as u32 - '0' as u32) as i64;
        assert(s@.subrange(0, i + 1).drop_last() =~= s@.subrange(0, i as int));
        assert(d == digit_value(s@[i as int]));
        if acc > (i64::MAX - d) / 10 {
            assert(10 * acc + d > i64::MAX) by (nonlinear_arith)
                requires
                    acc > (i64::MAX - d) / 10,
                    0 <= d <= 9,
            ;
            proof {
                lemma_decimal_prefix(s@, i + 1);
            }
            return None;
        }
        assert(10 * acc + d <= i64::MAX) by (nonlinear_arith)
            requires
                acc <= (i64::MAX - d) / 10,
                0 <= d <= 9,
        ;
        acc = acc * 10 + d;
        i += 1;
    }
    assert(s@.subrange(0, n as int) =~= s@);
    Some(acc)
}

/// The syntax analyser: a cursor over a token stream.
pub struct Parser {
    pub tokens: Vec<Token>,
    pub index: usize,
}

impl Parser {
    pub fn new(tokens: Vec<Token>) -> (r: Parser)
        ensures
            r.tokens@ == tokens@,
            r.index == 0,
    {
        Parser { tokens, index: 0 }
    }

    /// Parses the statements from the cursor to the end of input; statements
    /// that do not parse are left out. Always `Some`.
    pub fn parse_program(&mut self) -> (r: Option<Program>)
        ensures
            final(self).tokens@ == old(self).tokens@,
            r matches Some(p) && stmts_m(p@) == pstmts(
                old(self).tokens@,
                Seq::empty(),
                old(self).index as int,
                false,
            ).0,
            old(self).index == 0 ==> (r matches Some(p) && stmts_m(p@) == program_of(
                old(self).tokens@,
            )),
    {
        if self.index > self.tokens.len() {
            self.index = self.tokens.len();
            proof {
                assert(pstmts(old(self).tokens@, Seq::empty(), old(self).index as int, false).0
                    == Seq::<StmtM>::empty());
            }
            return Some(Vec::new());
        }
        let (stmts, end) = self.parse_statements(self.index, false);
        self.index = end;
        Some(stmts)
    }

    /// The kind of the token `off` places after `i`.
    fn kind(&self, i: usize, off: usize) -> (r: TokenType)
        ensures
            r == kind_at(self.tokens@, i + off),
    {
        if i < self.tokens.len() && off < self.tokens.len() - i {
            self.tokens[i + off].ttype
        } else {
            TokenType::Eof
        }
    }

    fn text(&self, i: usize) -> (r: Vec<char>)
        requires
            i < self.tokens.len(),
        ensures
            r@ == text_at(self.tokens@, i as int),
    {
        copy_chars(&self.tokens[i].literal)
    }

    fn parse_statements(&self, start: usize, in_block: bool) -> (r: (Vec<Statement>, usize))
        requires
            start <= self.tokens.len(),
        ensures
            start <= r.1 <= self.tokens.len(),
            (stmts_m(r.0@), r.1 as int) == pstmts(self.tokens@, Seq::empty(), start as int, in_block),
        decreases self.tokens.len() - start, 10int,
    {
        let mut acc: Vec<Statement> = Vec::new();
        let mut pos = start;
        loop
            invariant
                start <= pos <= self.tokens.len(),
                pstmts(self.tokens@, Seq::empty(), start as int, in_block) == pstmts(
                    self.tokens@,
                    stmts_m(acc@),
                    pos as int,
                    in_block,
                ),
            decreases self.tokens.len() - pos,
        {
            let k = self.kind(pos, 0);
            if k == TokenType::Eof || (in_block && k == TokenType::RBrace) {
                return (acc, pos);
            }
            let (st, p1) = self.parse_statement(pos);
            match st {
                Some(x) => {
                    proof {
                        lemma_stmts_m_push(acc@, x);
                    }
                    acc.push(x);
                },
                None => {},
            }
            pos = if p1 < self.tokens.len() {
                p1 + 1
            } else {
                p1
            };
        }
    }

    fn parse_statement(&self, pos: usize) -> (r: (Option<Statement>, usize))
        requires
            pos <= self.tokens.len(),
        ensures
            pos <= r.1 <= self.tokens.len(),
            (opt_stmt_m(r.0), r.1 as int) == pstmt(self.tokens@, pos as int),
        decreases self.tokens.len() - pos, 8int,
    {
        let k = self.kind(pos, 0);
        if k == TokenType::Let {
            if self.kind(pos, 1) == TokenType::Ident && self.kind(pos, 2) == TokenType::Assign {
                let name = self.text(pos + 1);
                let (v, p1) = self.parse_expression(pos + 3, LOWEST);
                match v {
                    Some(e) => (
                        Some(Statement::Let { name: Identifier { value: name }, value: e }),
                        self.skip_semi(p1),
                    ),
                    None => (None, p1),
                }
            } else {
                (None, pos)
            }
        } else if k == TokenType::Return {
            let (v, p1) = self.parse_expression(pos + 1, LOWEST);
            match v {
                Some(e) => (Some(Statement::Return { value: e }), self.skip_semi(p1)),
                None => (None, p1),
            }
        } else if k == TokenType::Ident && self.kind(pos, 1) == TokenType::Assign {
            let name = self.text(pos);
            let (v, p1) = self.parse_expression(pos + 2, LOWEST);
            match v {
                Some(e) => (
                    Some(Statement::ReAssign { name: Identifier { value: name }, value: e }),
                    self.skip_semi(p1),
                ),
                None => (None, p1),
            }
        } else {
            let (v, p1) = self.parse_expression(pos, LOWEST);
            match v {
                Some(e) => (Some(Statement::Expression { value: e }), self.skip_semi(p1)),
                None => (None, self.skip_semi(p1)),
            }
        }
    }

    fn skip_semi(&self, p: usize) -> (r: usize)
        requires
            p <= self.tokens.len(),
        ensures
            r == skip_semi(self.tokens@, p as int),
            p <= r <= self.tokens.len(),
    {
        if self.kind(p, 1) == TokenType::Semicolon {
            p + 1
        } else {
            p
        }
    }

    fn parse_expression(&self, pos: usize, prec: u8) -> (r: (Option<Expression>, usize))
        requires
            pos <= self.tokens.len(),
        ensures
            pos <= r.1 <= self.tokens.len(),
            (opt_expr_m(r.0), r.1 as int) == pexpr(self.tokens@, pos as int, prec),
        decreases self.tokens.len() - pos, 4int,
    {
        let (left, p1) = self.parse_operand(pos);
        match left {
            None => (None, p1),
            Some(l) => self.extend_infix(l, p1, prec),
        }
    }

    fn extend_infix(&self, left: Expression, pos: usize, prec: u8) -> (r: (
        Option<Expression>,
        usize,
    ))
        requires
            pos <= self.tokens.len(),
        ensures
            pos <= r.1 <= self.tokens.len(),
            (opt_expr_m(r.0), r.1 as int) == pinfix(self.tokens@, expr_m(left), pos as int, prec),
        decreases self.tokens.len() - pos, 1int,
    {
        let pk = self.kind(pos, 1);
        if pk != TokenType::Semicolon && prec < self.token_precedence(pk) {
            let q = pos + 1;
            let (r, p2) = if pk == TokenType::LParen {
                self.parse_fn_call(left, q)
            } else if pk == TokenType::LBracket {
                self.parse_index_expression(left, q)
            } else if pk == TokenType::Period {
                self.parse_dot_notation(left, q)
            } else {
                self.parse_infix_expression(left, q)
            };
            match r {
                None => (None, p2),
                Some(l2) => self.extend_infix(l2, p2, prec),
            }
        } else {
            (Some(left), pos)
        }
    }

    fn token_precedence(&self, t: TokenType) -> (r: u8)
        ensures
            r == power(t),
    {
        match t {
            TokenType::Assign | TokenType::NotEq | TokenType::Eq => EQUALS,
            TokenType::Lt | TokenType::Gt => LESS_GREATER,
            TokenType::Add | TokenType::Sub => SUM,
            TokenType::Div | TokenType::Mul => PRODUCT,
            TokenType::LParen => CALL,
            TokenType::LBracket => INDEX,
            TokenType::Period => DOT,
            _ => LOWEST,
        }
    }

    fn parse_infix_expression(&self, left: Expression, pos: usize) -> (r: (Option<Expression>, usize))
        requires
            pos < self.tokens.len(),
        ensures
            pos <= r.1 <= self.tokens.len(),
            (opt_expr_m(r.0), r.1 as int) == pbinary(self.tokens@, expr_m(left), pos as int),
        decreases self.tokens.len() - pos, 2int,
    {
        let k = self.kind(pos, 0);
        let (right, p1) = self.parse_expression(pos + 1, self.token_precedence(k));
        let op = match k {
            TokenType::Add => Some(InfixOp::Add),
            TokenType::Sub => Some(InfixOp::Sub),
            TokenType::Mul => Some(InfixOp::Mul),
            TokenType::Div => Some(InfixOp::Div),
            TokenType::Lt => Some(InfixOp::Lt),
            TokenType::Gt => Some(InfixOp::Gt),
            TokenType::Eq => Some(InfixOp::Eq),
            TokenType::NotEq => Some(InfixOp::NotEq),
            TokenType::Assign => Some(InfixOp::Assign),
            _ => None,
        };
        match (right, op) {
            (Some(r), Some(o)) => (
                Some(Expression::Infix { left: Box::new(left), operator: o, right: Box::new(r) }),
                p1,
            ),
            _ => (None, p1),
        }
    }

    fn parse_fn_call(&self, left: Expression, pos: usize) -> (r: (Option<Expression>, usize))
        requires
            pos < self.tokens.len(),
        ensures
            pos <= r.1 <= self.tokens.len(),
            (opt_expr_m(r.0), r.1 as int) == pcall(self.tokens@, expr_m(left), pos as int),
        decreases self.tokens.len() - pos, 2int,
    {
        let (args, p1) = self.parse_expression_list(pos, TokenType::RParen);
        match args {
            Some(a) => (Some(Expression::FunctionCall { function: Box::new(left), arguments: a }), p1),
            None => (None, p1),
        }
    }

    fn parse_index_expression(&self, left: Expression, pos: usize) -> (r: (Option<Expression>, usize))
        requires
            pos < self.tokens.len(),
        ensures
            pos <= r.1 <= self.tokens.len(),
            (opt_expr_m(r.0), r.1 as int) == pindex(self.tokens@, expr_m(left), pos as int),
        decreases self.tokens.len() - pos, 2int,
    {
        let (idx, p1) = self.parse_expression(pos + 1, LOWEST);
        match idx {
            Some(i) => if self.kind(p1, 1) == TokenType::RBracket {
                (
                    Some(Expression::IndexExpression { left: Box::new(left), index: Box::new(i) }),
                    p1 + 1,
                )
            } else {
                (None, p1)
            },
            None => (None, p1),
        }
    }

    fn parse_dot_notation(&self, left: Expression, pos: usize) -> (r: (Option<Expression>, usize))
        requires
            pos < self.tokens.len(),
        ensures
            pos <= r.1 <= self.tokens.len(),
            (opt_expr_m(r.0), r.1 as int) == pdot(self.tokens@, expr_m(left), pos as int),
        decreases self.tokens.len() - pos, 2int,
    {
        let (right, p1) = self.parse_expression(pos + 1, DOT);
        match right {
            Some(r) => (Some(Expression::DotNotation { left: Box::new(left), right: Box::new(r) }), p1),
            None => (None, p1),
        }
    }

    fn parse_operand(&self, pos: usize) -> (r: (Option<Expression>, usize))
        requires
            pos <= self.tokens.len(),
        ensures
            pos <= r.1 <= self.tokens.len(),
            (opt_expr_m(r.0), r.1 as int) == pprefix(self.tokens@, pos as int),
        decreases self.tokens.len() - pos, 3int,
    {
        let k = self.kind(pos, 0);
        if k == TokenType::Ident {
            let e = Expression::Identifier(Identifier { value: self.text(pos) });
            assert(expr_m(e) == ExprM::Ident(text_at(self.tokens@, pos as int)));
            (Some(e), pos)
        } else if k == TokenType::String {
            let e = Expression::Literal(Literal::String(self.text(pos)));
            assert(expr_m(e) == ExprM::Lit(lit_m(Literal::String(e->Literal_0->String_0))));
            (Some(e), pos)
        } else if k == TokenType::Number {
            match parse_int(&self.tokens[pos].literal) {
                Some(n) => {
                    let e = Expression::Literal(Literal::Integer(n));
                    assert(expr_m(e) == ExprM::Lit(lit_m(Literal::Integer(n))));
                    (Some(e), pos)
                },
                None => (None, pos),
            }
        } else if k == TokenType::True || k == TokenType::False {
            let e = Expression::Literal(Literal::Boolean(k == TokenType::True));
            assert(expr_m(e) == ExprM::Lit(lit_m(Literal::Boolean(k == TokenType::True))));
            (Some(e), pos)
        } else if k == TokenType::Bang || k == TokenType::Sub {
            self.parse_prefix_expression(pos)
        } else if k == TokenType::LBrace {
            proof {
                assert(pairs_m(Seq::<(Expression, Expression)>::empty()) =~= Seq::<
                    (ExprM, ExprM),
                >::empty());
            }
            self.parse_hash_expr(Vec::new(), pos)
        } else if k == TokenType::LParen {
            self.parse_group_expr(pos)
        } else if k == TokenType::LBracket {
            let (elems, p1) = self.parse_expression_list(pos, TokenType::RBracket);
            match elems {
                Some(e) => {
                    let a = Expression::Literal(Literal::Array(e));
                    assert(expr_m(a) == ExprM::Lit(lit_m(Literal::Array(e))));
                    (Some(a), p1)
                },
                None => (None, p1),
            }
        } else if k == TokenType::If {
            self.parse_if_expr(pos)
        } else if k == TokenType::Fn {
            self.parse_fn_literal(pos)
        } else {
            (None, pos)
        }
    }

    fn parse_prefix_expression(&self, pos: usize) -> (r: (Option<Expression>, usize))
        requires
            pos < self.tokens.len(),
        ensures
            pos <= r.1 <= self.tokens.len(),
            (opt_expr_m(r.0), r.1 as int) == punary(self.tokens@, pos as int),
        decreases self.tokens.len() - pos, 2int,
    {
        let op = if self.kind(pos, 0) == TokenType::Bang {
            PrefixOp::Bang
        } else {
            PrefixOp::Minus
        };
        let (right, p1) = self.parse_expression(pos + 1, PREFIX);
        match right {
            Some(r) => (Some(Expression::Prefix { operator: op, right: Box::new(r) }), p1),
            None => (None, p1),
        }
    }

    fn parse_group_expr(&self, pos: usize) -> (r: (Option<Expression>, usize))
        requires
            pos < self.tokens.len(),
        ensures
            pos <= r.1 <= self.tokens.len(),
            (opt_expr_m(r.0), r.1 as int) == pgroup(self.tokens@, pos as int),
        decreases self.tokens.len() - pos, 2int,
    {
        let (e, p1) = self.parse_expression(pos + 1, LOWEST);
        if self.kind(p1, 1) == TokenType::RParen {
            (e, p1 + 1)
        } else {
            (None, p1)
        }
    }

    fn parse_expression_list(&self, pos: usize, close: TokenType) -> (r: (Option<Vec<Expression>>, usize))
        requires
            pos < self.tokens.len(),
            close != TokenType::Eof,
        ensures
            pos <= r.1 <= self.tokens.len(),
            (opt_exprs_m(r.0), r.1 as int) == plist(self.tokens@, pos as int, close),
        decreases self.tokens.len() - pos, 1int,
    {
        if self.kind(pos, 1) == close {
            proof {
                assert(exprs_m(Seq::<Expression>::empty()) == Seq::<ExprM>::empty());
            }
            (Some(Vec::new()), pos + 1)
        } else {
            let (e, p1) = self.parse_expression(pos + 1, LOWEST);
            match e {
                Some(x) => {
                    let mut acc: Vec<Expression> = Vec::new();
                    proof {
                        lemma_exprs_m_push(acc@, x);
                        assert(exprs_m(acc@).push(expr_m(x)) =~= seq![expr_m(x)]);
                    }
                    acc.push(x);
                    self.parse_expression_list_rest(acc, p1, close)
                },
                None => (None, p1),
            }
        }
    }

    fn parse_expression_list_rest(&self, acc: Vec<Expression>, pos: usize, close: TokenType) -> (r: (
        Option<Vec<Expression>>,
        usize,
    ))
        requires
            pos <= self.tokens.len(),
            close != TokenType::Eof,
        ensures
            pos <= r.1 <= self.tokens.len(),
            (opt_exprs_m(r.0), r.1 as int) == plist_more(
                self.tokens@,
                exprs_m(acc@),
                pos as int,
                close,
            ),
        decreases self.tokens.len() - pos, 1int,
    {
        if self.kind(pos, 1) == TokenType::Comma {
            let (e, p1) = self.parse_expression(pos + 2, LOWEST);
            match e {
                Some(x) => {
                    let mut acc = acc;
                    proof {
                        lemma_exprs_m_push(acc@, x);
                    }
                    acc.push(x);
                    self.parse_expression_list_rest(acc, p1, close)
                },
                None => (None, p1),
            }
        } else if self.kind(pos, 1) == close {
            (Some(acc), pos + 1)
        } else {
            (None, pos)
        }
    }

    fn parse_hash_expr(&self, acc: Vec<(Expression, Expression)>, pos: usize) -> (r: (
        Option<Expression>,
        usize,
    ))
        requires
            pos <= self.tokens.len(),
        ensures
            pos <= r.1 <= self.tokens.len(),
            (opt_expr_m(r.0), r.1 as int) == phash(self.tokens@, pairs_m(acc@), pos as int),
        decreases self.tokens.len() - pos, 1int,
    {
        if pos >= self.tokens.len() {
            return (None, pos);
        }
        if self.kind(pos, 1) == TokenType::RBrace {
            let e = Expression::Literal(Literal::Hash(acc));
            assert(expr_m(e) == ExprM::Lit(lit_m(Literal::Hash(acc))));
            return (Some(e), pos + 1);
        }
        let (k, p1) = self.parse_expression(pos + 1, LOWEST);
        match k {
            None => (None, p1),
            Some(key) => if self.kind(p1, 1) == TokenType::Colon {
                let (v, p2) = self.parse_expression(p1 + 2, LOWEST);
                match v {
                    None => (None, p2),
                    Some(value) => {
                        let after = self.kind(p2, 1);
                        if after == TokenType::RBrace || after == TokenType::Comma {
                            let mut acc = acc;
                            proof {
                                lemma_pairs_m_push(acc@, (key, value));
                            }
                            acc.push((key, value));
                            if after == TokenType::RBrace {
                                self.parse_hash_expr(acc, p2)
                            } else {
                                self.parse_hash_expr(acc, p2 + 1)
                            }
                        } else {
                            (None, p2)
                        }
                    },
                }
            } else {
                (None, p1)
            },
        }
    }

    fn parse_fn_parameters(&self, acc: Vec<Identifier>, pos: usize, first: bool) -> (r: (
        Option<Vec<Identifier>>,
        usize,
    ))
        requires
            pos <= self.tokens.len(),
        ensures
            pos <= r.1 <= self.tokens.len(),
            (opt_idents_m(r.0), r.1 as int) == pparams(
                self.tokens@,
                idents_m(acc@),
                pos as int,
                first,
            ),
        decreases self.tokens.len() - pos,
    {
        let mut acc = acc;
        if first && self.kind(pos, 1) == TokenType::RParen {
            (Some(acc), pos + 1)
        } else if first && self.kind(pos, 1) == TokenType::Ident {
            let name = self.text(pos + 1);
            proof {
                assert(idents_m(acc@.push(Identifier { value: name })) =~= idents_m(acc@).push(
                    name@,
                ));
            }
            acc.push(Identifier { value: name });
            self.parse_fn_parameters(acc, pos + 1, false)
        } else if !first && self.kind(pos, 1) == TokenType::Comma && self.kind(pos, 2)
            == TokenType::Ident {
            let name = self.text(pos + 2);
            proof {
                assert(idents_m(acc@.push(Identifier { value: name })) =~= idents_m(acc@).push(
                    name@,
                ));
            }
            acc.push(Identifier { value: name });
            self.parse_fn_parameters(acc, pos + 2, false)
        } else if !first && self.kind(pos, 1) == TokenType::RParen {
            (Some(acc), pos + 1)
        } else {
            (None, pos)
        }
    }

    fn parse_if_expr(&self, pos: usize) -> (r: (Option<Expression>, usize))
        requires
            pos < self.tokens.len(),
        ensures
            pos <= r.1 <= self.tokens.len(),
            (opt_expr_m(r.0), r.1 as int) == pif(self.tokens@, pos as int),
        decreases self.tokens.len() - pos, 2int,
    {
        let (c, p1) = self.parse_expression(pos + 1, LOWEST);
        if self.kind(p1, 1) != TokenType::LBrace {
            return (None, p1);
        }
        let (cons, p2) = self.parse_statements(p1 + 2, true);
        if self.kind(p2, 1) == TokenType::Else {
            if self.kind(p2, 2) == TokenType::LBrace {
                let (alt, p3) = self.parse_statements(p2 + 3, true);
                match c {
                    Some(cond) => (
                        Some(
                            Expression::If {
                                condition: Box::new(cond),
                                consequence: cons,
                                alternative: Some(alt),
                            },
                        ),
                        p3,
                    ),
                    None => (None, p3),
                }
            } else {
                (None, p2 + 1)
            }
        } else {
            match c {
                Some(cond) => (
                    Some(
                        Expression::If {
                            condition: Box::new(cond),
                            consequence: cons,
                            alternative: None,
                        },
                    ),
                    p2,
                ),
                None => (None, p2),
            }
        }
    }

    fn parse_fn_literal(&self, pos: usize) -> (r: (Option<Expression>, usize))
        requires
            pos < self.tokens.len(),
        ensures
            pos <= r.1 <= self.tokens.len(),
            (opt_expr_m(r.0), r.1 as int) == pfn(self.tokens@, pos as int),
        decreases self.tokens.len() - pos, 2int,
    {
        if self.kind(pos, 1) != TokenType::LParen {
            return (None, pos);
        }
        proof {
            assert(idents_m(Seq::<Identifier>::empty()) =~= Seq::<Seq<char>>::empty());
        }
        let (ps, p1) = self.parse_fn_parameters(Vec::new(), pos + 1, true);
        match ps {
            Some(params) => if self.kind(p1, 1) == TokenType::LBrace {
                let (body, p2) = self.parse_statements(p1 + 2, true);
                (Some(Expression::FunctionLiteral { parameters: params, body }), p2)
            } else {
                (None, p1)
            },
            None => (None, p1),
        }
    }
}

} // verus!
