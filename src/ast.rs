use vstd::prelude::*;

verus! {

/// Operators that stand before a single operand.
#[derive(Debug, Clone, Copy, PartialEq, Eq, Structural)]
pub enum PrefixOp {
    Bang,
    Minus,
}

/// Operators that stand between two operands.
#[derive(Debug, Clone, Copy, PartialEq, Eq, Structural)]
pub enum InfixOp {
    Add,
    Sub,
    Mul,
    Div,
    Lt,
    Gt,
    Eq,
    NotEq,
    Assign,
}

#[derive(Debug, PartialEq)]
pub struct Identifier {
    pub value: Vec<char>,
}

#[derive(Debug, PartialEq)]
pub enum Literal {
    Integer(i64),
    Boolean(bool),
    String(Vec<char>),
    Array(Vec<Expression>),
    Hash(Vec<(Expression, Expression)>),
}

#[derive(Debug, PartialEq)]
pub enum Expression {
    Literal(Literal),
    Identifier(Identifier),
    Prefix { operator: PrefixOp, right: Box<Expression> },
    Infix { left: Box<Expression>, operator: InfixOp, right: Box<Expression> },
    If {
        condition: Box<Expression>,
        consequence: Vec<Statement>,
        alternative: Option<Vec<Statement>>,
    },
    FunctionLiteral { parameters: Vec<Identifier>, body: Vec<Statement> },
    FunctionCall { function: Box<Expression>, arguments: Vec<Expression> },
    IndexExpression { left: Box<Expression>, index: Box<Expression> },
    DotNotation { left: Box<Expression>, right: Box<Expression> },
}

#[derive(Debug, PartialEq)]
pub enum Statement {
    Let { name: Identifier, value: Expression },
    ReAssign { name: Identifier, value: Expression },
    Return { value: Expression },
    Expression { value: Expression },
}

/// A program, and the body of a block, is a sequence of statements.
pub type Program = Vec<Statement>;

// The mathematical model of the syntax tree: the same shape, with sequences
// in place of vectors.
pub enum LitM {
    Integer(i64),
    Boolean(bool),
    Str(Seq<char>),
    Array(Seq<ExprM>),
    Hash(Seq<(ExprM, ExprM)>),
}

pub enum ExprM {
    Lit(LitM),
    Ident(Seq<char>),
    Prefix(PrefixOp, Box<ExprM>),
    Infix(Box<ExprM>, InfixOp, Box<ExprM>),
    If(Box<ExprM>, Seq<StmtM>, Option<Seq<StmtM>>),
    Func(Seq<Seq<char>>, Seq<StmtM>),
    Call(Box<ExprM>, Seq<ExprM>),
    Index(Box<ExprM>, Box<ExprM>),
    Dot(Box<ExprM>, Box<ExprM>),
}

pub enum StmtM {
    Let(Seq<char>, ExprM),
    ReAssign(Seq<char>, ExprM),
    Return(ExprM),
    Expr(ExprM),
}

pub open spec fn idents_m(s: Seq<Identifier>) -> Seq<Seq<char>> {
    s.map_values(|i: Identifier| i.value@)
}

pub open spec fn lit_m(l: Literal) -> LitM
    decreases l,
{
    match l {
        Literal::Integer(n) => LitM::Integer(n),
        Literal::Boolean(b) => LitM::Boolean(b),
        Literal::String(s) => LitM::Str(s@),
        Literal::Array(v) => LitM::Array(exprs_m(v@)),
        Literal::Hash(v) => LitM::Hash(pairs_m(v@)),
    }
}

pub open spec fn expr_m(e: Expression) -> ExprM
    decreases e,
{
    match e {
        Expression::Literal(l) => ExprM::Lit(lit_m(l)),
        Expression::Identifier(i) => ExprM::Ident(i.value@),
        Expression::Prefix { operator, right } => ExprM::Prefix(operator, Box::new(expr_m(*right))),
        Expression::Infix { left, operator, right } => ExprM::Infix(
            Box::new(expr_m(*left)),
            operator,
            Box::new(expr_m(*right)),
        ),
        Expression::If { condition, consequence, alternative } => ExprM::If(
            Box::new(expr_m(*condition)),
            stmts_m(consequence@),
            match alternative {
                Some(a) => Some(stmts_m(a@)),
                None => None,
            },
        ),
        Expression::FunctionLiteral { parameters, body } => ExprM::Func(
            idents_m(parameters@),
            stmts_m(body@),
        ),
        Expression::FunctionCall { function, arguments } => ExprM::Call(
            Box::new(expr_m(*function)),
            exprs_m(arguments@),
        ),
        Expression::IndexExpression { left, index } => ExprM::Index(
            Box::new(expr_m(*left)),
            Box::new(expr_m(*index)),
        ),
        Expression::DotNotation { left, right } => ExprM::Dot(
            Box::new(expr_m(*left)),
            Box::new(expr_m(*right)),
        ),
    }
}

pub open spec fn stmt_m(s: Statement) -> StmtM
    decreases s,
{
    match s {
        Statement::Let { name, value } => StmtM::Let(name.value@, expr_m(value)),
        Statement::ReAssign { name, value } => StmtM::ReAssign(name.value@, expr_m(value)),
        Statement::Return { value } => StmtM::Return(expr_m(value)),
        Statement::Expression { value } => StmtM::Expr(expr_m(value)),
    }
}

pub open spec fn exprs_m(s: Seq<Expression>) -> Seq<ExprM>
    decreases s,
{
    if s.len() == 0 {
        Seq::empty()
    } else {
        exprs_m(s.drop_last()).push(expr_m(s.last()))
    }
}

pub open spec fn pairs_m(s: Seq<(Expression, Expression)>) -> Seq<(ExprM, ExprM)>
    decreases s,
{
    if s.len() == 0 {
        Seq::empty()
    } else {
        pairs_m(s.drop_last()).push((expr_m(s.last().0), expr_m(s.last().1)))
    }
}

pub open spec fn stmts_m(s: Seq<Statement>) -> Seq<StmtM>
    decreases s,
{
    if s.len() == 0 {
        Seq::empty()
    } else {
        stmts_m(s.drop_last()).push(stmt_m(s.last()))
    }
}

pub proof fn lemma_exprs_m_push(s: Seq<Expression>, e: Expression)
    ensures
        exprs_m(s.push(e)) == exprs_m(s).push(expr_m(e)),
{
    assert(s.push(e).drop_last() =~= s);
}

pub proof fn lemma_pairs_m_push(s: Seq<(Expression, Expression)>, p: (Expression, Expression))
    ensures
        pairs_m(s.push(p)) == pairs_m(s).push((expr_m(p.0), expr_m(p.1))),
{
    assert(s.push(p).drop_last() =~= s);
}

pub proof fn lemma_stmts_m_push(s: Seq<Statement>, st: Statement)
    ensures
        stmts_m(s.push(st)) == stmts_m(s).push(stmt_m(st)),
{
    assert(s.push(st).drop_last() =~= s);
}

} // verus!
