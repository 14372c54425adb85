//! Syntax trees of Cobra programs and their mathematical models.
use vstd::prelude::*;

verus! {

broadcast use vstd::std_specs::vec::axiom_vec_decreases_to_view;

/// A Cobra expression.
#[derive(Debug)]
pub enum Expr {
    Number(i32),
    Bool(bool),
    Input,
    Id(String),
    Let(Vec<(String, Expr)>, Box<Expr>),
    UnOp(UnOp, Box<Expr>),
    BinOp(BinOp, Box<Expr>, Box<Expr>),
    If(Box<Expr>, Box<Expr>, Box<Expr>),
    Block(Vec<Expr>),
    Loop(Box<Expr>),
    Break(Box<Expr>),
    Assign(String, Box<Expr>),
}

/// Unary operators.
#[derive(Debug, Clone, Copy, PartialEq, Eq, Structural)]
pub enum UnOp {
    Add1,
    Sub1,
    Negate,
    IsNum,
    IsBool,
}

/// Binary operators.
#[derive(Debug, Clone, Copy, PartialEq, Eq, Structural)]
pub enum BinOp {
    Plus,
    Minus,
    Times,
    Less,
    Greater,
    LessEq,
    GreaterEq,
    Equal,
}

/// Mathematical model of an expression: names as character sequences and
/// sub-expressions as sequences of models.
pub enum ExprV {
    Number(i32),
    Bool(bool),
    Input,
    Id(Seq<char>),
    Let(Seq<(Seq<char>, ExprV)>, Box<ExprV>),
    UnOp(UnOp, Box<ExprV>),
    BinOp(BinOp, Box<ExprV>, Box<ExprV>),
    If(Box<ExprV>, Box<ExprV>, Box<ExprV>),
    Block(Seq<ExprV>),
    Loop(Box<ExprV>),
    Break(Box<ExprV>),
    Assign(Seq<char>, Box<ExprV>),
}

/// The model of an expression.
pub open spec fn expr_view(e: Expr) -> ExprV
    decreases e,
{
    match e {
        Expr::Number(n) => ExprV::Number(n),
        Expr::Bool(b) => ExprV::Bool(b),
        Expr::Input => ExprV::Input,
        Expr::Id(x) => ExprV::Id(x@),
        Expr::Let(bs, body) => ExprV::Let(binds_view(bs@), Box::new(expr_view(*body))),
        Expr::UnOp(op, a) => ExprV::UnOp(op, Box::new(expr_view(*a))),
        Expr::BinOp(op, a, b) => ExprV::BinOp(op, Box::new(expr_view(*a)), Box::new(expr_view(*b))),
        Expr::If(c, t, f) => ExprV::If(
            Box::new(expr_view(*c)),
            Box::new(expr_view(*t)),
            Box::new(expr_view(*f)),
        ),
        Expr::Block(es) => ExprV::Block(exprs_view(es@)),
        Expr::Loop(a) => ExprV::Loop(Box::new(expr_view(*a))),
        Expr::Break(a) => ExprV::Break(Box::new(expr_view(*a))),
        Expr::Assign(x, a) => ExprV::Assign(x@, Box::new(expr_view(*a))),
    }
}

/// The models of a sequence of expressions.
pub open spec fn exprs_view(s: Seq<Expr>) -> Seq<ExprV>
    decreases s,
{
    if s.len() == 0 {
        Seq::empty()
    } else {
        exprs_view(s.drop_last()).push(expr_view(s.last()))
    }
}

/// The models of a sequence of `let` bindings.
pub open spec fn binds_view(s: Seq<(String, Expr)>) -> Seq<(Seq<char>, ExprV)>
    decreases s,
{
    if s.len() == 0 {
        Seq::empty()
    } else {
        binds_view(s.drop_last()).push((s.last().0@, expr_view(s.last().1)))
    }
}

impl View for Expr {
    type V = ExprV;

    open spec fn view(&self) -> ExprV {
        expr_view(*self)
    }
}

/// `exprs_view` maps each expression to its model, one for one.
pub broadcast proof fn lemma_exprs_view(s: Seq<Expr>)
    ensures
        #[trigger] exprs_view(s).len() == s.len(),
        forall|i: int| 0 <= i < s.len() ==> #[trigger] exprs_view(s)[i] == expr_view(s[i]),
    decreases s.len(),
{
    if s.len() > 0 {
        lemma_exprs_view(s.drop_last());
    }
}

/// `binds_view` maps each binding to its model, one for one.
pub broadcast proof fn lemma_binds_view(s: Seq<(String, Expr)>)
    ensures
        #[trigger] binds_view(s).len() == s.len(),
        forall|i: int|
            0 <= i < s.len() ==> #[trigger] binds_view(s)[i] == (s[i].0@, expr_view(s[i].1)),
    decreases s.len(),
{
    if s.len() > 0 {
        lemma_binds_view(s.drop_last());
    }
}

} // verus!
