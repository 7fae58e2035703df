//! Algebraic expressions over the cells of a row and of the row after it, the
//! two challenges of the lookup argument, and constants of the field.
use crate::columns::{Column, CurrOrNext};
use crate::field::{fadd, fmul, fsub, modulus, residue, Fe};
use vstd::prelude::*;

verus! {

/// A challenge that the verifier draws and an expression may name.
#[derive(Clone, Copy, Debug, PartialEq, Eq, Hash, Structural)]
pub enum ChallengeTerm {
    /// The point that is added to every combined value to make a denominator.
    Beta,
    /// The combiner of the components of a vector lookup.
    JointCombiner,
}

/// An algebraic expression.
#[derive(Debug)]
pub enum Expr {
    /// A constant of the field.
    Literal(Fe),
    /// A challenge.
    Challenge(ChallengeTerm),
    /// The cell of a column, in the row under consideration or in the next.
    Cell(Column, CurrOrNext),
    /// An expression that is held elsewhere: the index under which it is
    /// held, and its degree.
    Outside(usize, u64),
    /// The sum of two expressions.
    Add(Box<Expr>, Box<Expr>),
    /// The difference of two expressions.
    Sub(Box<Expr>, Box<Expr>),
    /// The product of two expressions.
    Mul(Box<Expr>, Box<Expr>),
}

/// The values that an expression is evaluated on.
pub struct Assignment {
    /// The value of the challenge `Beta`.
    pub beta: nat,
    /// The value of the challenge `JointCombiner`.
    pub joint_combiner: nat,
    /// The value of each cell.
    pub cells: spec_fn(Column, CurrOrNext) -> nat,
    /// The value of each expression that is held elsewhere, by its index.
    pub outside: spec_fn(usize) -> nat,
}

/// The larger of two numbers.
pub open spec fn larger(a: nat, b: nat) -> nat {
    if a >= b {
        a
    } else {
        b
    }
}

impl Expr {
    /// The value of the expression in the field, where the challenges and the
    /// cells have the values that `a` gives them.
    pub open spec fn eval(self, a: Assignment) -> nat
        decreases self,
    {
        match self {
            Expr::Literal(x) => residue(x@ as int),
            Expr::Challenge(ChallengeTerm::Beta) => residue(a.beta as int),
            Expr::Challenge(ChallengeTerm::JointCombiner) => residue(a.joint_combiner as int),
            Expr::Cell(column, row) => residue((a.cells)(column, row) as int),
            Expr::Outside(index, _) => residue((a.outside)(index) as int),
            Expr::Add(l, r) => fadd(l.eval(a), r.eval(a)),
            Expr::Sub(l, r) => fsub(l.eval(a), r.eval(a)),
            Expr::Mul(l, r) => fmul(l.eval(a), r.eval(a)),
        }
    }

    /// The degree of the expression as a polynomial in the cells: a cell has
    /// degree one, a constant or a challenge degree zero, and an expression
    /// that is held elsewhere the degree that it is given with.
    pub open spec fn degree(self) -> nat
        decreases self,
    {
        match self {
            Expr::Literal(_) => 0,
            Expr::Challenge(_) => 0,
            Expr::Cell(_, _) => 1,
            Expr::Outside(_, degree) => degree as nat,
            Expr::Add(l, r) => larger(l.degree(), r.degree()),
            Expr::Sub(l, r) => larger(l.degree(), r.degree()),
            Expr::Mul(l, r) => l.degree() + r.degree(),
        }
    }

    /// The cell of `column` in the row under consideration.
    pub fn curr_cell(column: Column) -> (r: Expr)
        ensures
            r == Expr::Cell(column, CurrOrNext::Curr),
    {
        Expr::Cell(column, CurrOrNext::Curr)
    }

    /// The cell of `column` in the row after the one under consideration.
    pub fn next_cell(column: Column) -> (r: Expr)
        ensures
            r == Expr::Cell(column, CurrOrNext::Next),
    {
        Expr::Cell(column, CurrOrNext::Next)
    }

    /// A copy of the expression.
    pub fn duplicate(&self) -> (r: Expr)
        ensures
            r == *self,
        decreases *self,
    {
        match self {
            Expr::Literal(x) => Expr::Literal(*x),
            Expr::Challenge(c) => Expr::Challenge(*c),
            Expr::Cell(column, row) => Expr::Cell(*column, *row),
            Expr::Outside(index, degree) => Expr::Outside(*index, *degree),
            Expr::Add(l, r) => Expr::Add(Box::new(l.duplicate()), Box::new(r.duplicate())),
            Expr::Sub(l, r) => Expr::Sub(Box::new(l.duplicate()), Box::new(r.duplicate())),
            Expr::Mul(l, r) => Expr::Mul(Box::new(l.duplicate()), Box::new(r.duplicate())),
        }
    }

    /// The degree of the expression, or the largest number that fits where
    /// the degree is larger than that.
    pub fn compute_degree(&self) -> (d: u64)
        ensures
            d == if self.degree() <= u64::MAX {
                self.degree()
            } else {
                u64::MAX as nat
            },
        decreases *self,
    {
        match self {
            Expr::Literal(_) => 0,
            Expr::Challenge(_) => 0,
            Expr::Cell(_, _) => 1,
            Expr::Outside(_, degree) => *degree,
            Expr::Add(l, r) => {
                let a = l.compute_degree();
                let b = r.compute_degree();
                if a >= b {
                    a
                } else {
                    b
                }
            },
            Expr::Sub(l, r) => {
                let a = l.compute_degree();
                let b = r.compute_degree();
                if a >= b {
                    a
                } else {
                    b
                }
            },
            Expr::Mul(l, r) => {
                let a = l.compute_degree();
                let b = r.compute_degree();
                a.saturating_add(b)
            },
        }
    }
}

/// The value of an expression is below the field's order.
pub proof fn lemma_eval_is_reduced(e: Expr, a: Assignment)
    ensures
        e.eval(a) < modulus(),
        residue(e.eval(a) as int) == e.eval(a),
{
    match e {
        Expr::Literal(x) => {},
        Expr::Challenge(ChallengeTerm::Beta) => {},
        Expr::Challenge(ChallengeTerm::JointCombiner) => {},
        Expr::Cell(column, row) => {},
        Expr::Outside(index, degree) => {},
        Expr::Add(l, r) => {},
        Expr::Sub(l, r) => {},
        Expr::Mul(l, r) => {},
    }
    vstd::arithmetic::div_mod::lemma_small_mod(e.eval(a), modulus());
}

impl Clone for Expr {
    fn clone(&self) -> (r: Expr)
        ensures
            r == *self,
    {
        self.duplicate()
    }
}

} // verus!
