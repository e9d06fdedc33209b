//! The syntax tree of an expression.
use vstd::prelude::*;

verus! {

/// A binary operator.
#[derive(Debug, Clone, Copy, PartialEq, Eq, Structural)]
pub enum BinaryOp {
    // Arithmetic
    Add,
    Sub,
    Mul,
    Div,
    Rem,
    Pow,
    // Bitwise
    Shl,
    Shr,
    BitAnd,
    BitOr,
    BitXor,
    // Comparison and logic
    Eq,
    Neq,
    Lt,
    Gt,
    Le,
    Ge,
    LogAnd,
    LogOr,
    // Other
    Assign,
    Comma,
}

/// A prefix operator.
#[derive(Debug, Clone, Copy, PartialEq, Eq, Structural)]
pub enum UnaryOp {
    /// `-x`
    Neg,
    /// `!x`
    Not,
    /// `^x`: MathEX writes bitwise negation with `^`.
    BitNot,
}

/// A node of the syntax tree. A number keeps the text of its numeral.
#[derive(Debug, PartialEq)]
pub enum Expr {
    Number(String),
    Variable(String),
    Binary { op: BinaryOp, left: Box<Expr>, right: Box<Expr> },
    Unary { op: UnaryOp, operand: Box<Expr> },
    FunctionCall { name: String, args: Vec<Expr> },
}

/// The mathematical value of an [`Expr`]: texts become character sequences.
pub enum ExprView {
    Number(Seq<char>),
    Variable(Seq<char>),
    Binary { op: BinaryOp, left: Box<ExprView>, right: Box<ExprView> },
    Unary { op: UnaryOp, operand: Box<ExprView> },
    FunctionCall { name: Seq<char>, args: Seq<ExprView> },
}

/// The view of one expression.
pub open spec fn expr_view(e: Expr) -> ExprView
    decreases e,
{
    match e {
        Expr::Number(n) => ExprView::Number(n@),
        Expr::Variable(v) => ExprView::Variable(v@),
        Expr::Binary { op, left, right } => ExprView::Binary {
            op,
            left: Box::new(expr_view(*left)),
            right: Box::new(expr_view(*right)),
        },
        Expr::Unary { op, operand } => ExprView::Unary { op, operand: Box::new(expr_view(*operand)) },
        Expr::FunctionCall { name, args } => ExprView::FunctionCall {
            name: name@,
            args: exprs_view(args@),
        },
    }
}

/// The views of a sequence of expressions.
pub open spec fn exprs_view(es: Seq<Expr>) -> Seq<ExprView>
    decreases es,
{
    if es.len() == 0 {
        seq![]
    } else {
        exprs_view(es.drop_last()).push(expr_view(es.last()))
    }
}

/// Appending an expression appends its view.
pub proof fn lemma_exprs_view_push(es: Seq<Expr>, e: Expr)
    ensures
        exprs_view(es.push(e)) == exprs_view(es).push(expr_view(e)),
{
    assert(es.push(e).drop_last() =~= es);
}

/// The views of a sequence are the views of its items, one by one.
pub proof fn lemma_exprs_view_index(es: Seq<Expr>)
    ensures
        exprs_view(es).len() == es.len(),
        forall|i: int| 0 <= i < es.len() ==> #[trigger] exprs_view(es)[i] == expr_view(es[i]),
    decreases es.len(),
{
    if es.len() > 0 {
        lemma_exprs_view_index(es.drop_last());
    }
}

impl View for Expr {
    type V = ExprView;

    open spec fn view(&self) -> ExprView {
        expr_view(*self)
    }
}

/// A deep copy of `e`.
fn clone_expr(e: &Expr) -> (r: Expr)
    ensures
        r@ == e@,
    decreases e,
{
    match e {
        Expr::Number(n) => Expr::Number(n.clone()),
        Expr::Variable(v) => Expr::Variable(v.clone()),
        Expr::Binary { op, left, right } => Expr::Binary {
            op: *op,
            left: Box::new(clone_expr(left)),
            right: Box::new(clone_expr(right)),
        },
        Expr::Unary { op, operand } => Expr::Unary { op: *op, operand: Box::new(clone_expr(operand)) },
        Expr::FunctionCall { name, args } => {
            let mut out: Vec<Expr> = Vec::new();
            let mut i: usize = 0;
            #[verifier::loop_isolation(false)]
            while i < args.len()
                invariant
                    i <= args@.len(),
                    out@.len() == i,
                    forall|k: int| 0 <= k < i ==> #[trigger] out@[k]@ == args@[k]@,
                decreases args@.len() - i,
            {
                proof {
                    assert(decreases_to!(*e => *args));
                    assert(decreases_to!(*args => args@));
                    assert(decreases_to!(args@ => args@[i as int]));
                }
                out.push(clone_expr(&args[i]));
                i = i + 1;
            }
            proof {
                lemma_exprs_view_index(out@);
                lemma_exprs_view_index(args@);
                assert forall|k: int| 0 <= k < args@.len() implies exprs_view(out@)[k] == exprs_view(args@)[k] by {
                    assert(out@[k]@ == args@[k]@);
                }
                assert(exprs_view(out@) =~= exprs_view(args@));
            }
            Expr::FunctionCall { name: name.clone(), args: out }
        },
    }
}

impl Clone for Expr {
    /// A deep copy, with the same view.
    fn clone(&self) -> (r: Self)
        ensures
            r@ == self@,
    {
        clone_expr(self)
    }
}

} // verus!
