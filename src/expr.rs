use vstd::prelude::*;

use crate::dice::DiceRoll;

verus! {

/// An expression of dice notation: numbers and dice rolls combined by operators
/// and one-argument functions.
#[derive(Debug, PartialEq)]
pub enum Expr {
    Number(i64),
    DiceRoll(DiceRoll),
    /// Left operand, operator (`+`, `-`, `*` or `/`), right operand.
    BinaryOp(Box<Expr>, String, Box<Expr>),
    /// Function name and its single argument.
    Function(String, Box<Expr>),
}

/// The mathematical value of an [`Expr`]: texts become character sequences.
pub enum ExprView {
    Number(int),
    Roll(DiceRoll),
    BinaryOp(Box<ExprView>, Seq<char>, Box<ExprView>),
    Function(Seq<char>, Box<ExprView>),
}

impl View for Expr {
    type V = ExprView;

    open spec fn view(&self) -> ExprView
        decreases self,
    {
        match self {
            Expr::Number(n) => ExprView::Number(*n as int),
            Expr::DiceRoll(r) => ExprView::Roll(*r),
            Expr::BinaryOp(l, op, r) => ExprView::BinaryOp(
                Box::new((**l).view()),
                op@,
                Box::new((**r).view()),
            ),
            Expr::Function(name, arg) => ExprView::Function(name@, Box::new((**arg).view())),
        }
    }
}

impl Clone for Expr {
    fn clone(&self) -> (r: Self)
        ensures
            r@ == self@,
        decreases self,
    {
        match self {
            Expr::Number(n) => Expr::Number(*n),
            Expr::DiceRoll(r) => Expr::DiceRoll(*r),
            Expr::BinaryOp(l, op, r) => {
                let l2 = (**l).clone();
                let r2 = (**r).clone();
                Expr::BinaryOp(Box::new(l2), op.clone(), Box::new(r2))
            },
            Expr::Function(name, arg) => {
                let arg2 = (**arg).clone();
                Expr::Function(name.clone(), Box::new(arg2))
            },
        }
    }
}

/// The dice-roll leaves of an expression, left to right.
pub open spec fn dice_leaves(e: ExprView) -> Seq<DiceRoll>
    decreases e,
{
    match e {
        ExprView::Number(_) => seq![],
        ExprView::Roll(r) => seq![r],
        ExprView::BinaryOp(l, _, r) => dice_leaves(*l) + dice_leaves(*r),
        ExprView::Function(_, arg) => dice_leaves(*arg),
    }
}

/// Why a text could not be read as dice notation.
#[derive(Debug, Clone, Copy, PartialEq, Eq, Structural)]
pub enum ParseError {
    /// The text does not follow the notation; `position` is the byte offset at
    /// which it stops doing so.
    GrammarError { position: usize },
    /// A number that the notation accepts does not fit the integer type that
    /// holds it; `position` is the byte offset where the number starts.
    InternalInvariantViolation { position: usize },
}

} // verus!
