//! The language of the constraints that are asserted into the solver, and
//! what it means for an assignment of digits to satisfy them.
use vstd::prelude::*;

verus! {

/// An integer expression over the letters of a puzzle.
pub enum Term {
    /// The unknown that stands for the digit of a letter.
    Letter(char),
    /// A fixed integer.
    Number(int),
    /// The sum of two expressions.
    Sum(Box<Term>, Box<Term>),
    /// The product of two expressions.
    Product(Box<Term>, Box<Term>),
}

/// A condition on the digits of the letters.
pub enum Constraint {
    /// The first expression is greater than or equal to the second.
    AtLeast(Term, Term),
    /// The first expression is less than or equal to the second.
    AtMost(Term, Term),
    /// The two expressions are equal.
    Equal(Term, Term),
    /// No two of the expressions are equal.
    Distinct(Seq<Term>),
}

/// The value of `term` when every letter has the digit that `digits` gives it.
pub open spec fn term_value(term: Term, digits: Map<char, int>) -> int
    decreases term,
{
    match term {
        Term::Letter(letter) => digits[letter],
        Term::Number(number) => number,
        Term::Sum(left, right) => term_value(*left, digits) + term_value(*right, digits),
        Term::Product(left, right) => term_value(*left, digits) * term_value(*right, digits),
    }
}

/// Whether `constraint` is true when every letter has the digit that `digits`
/// gives it.
pub open spec fn holds(constraint: Constraint, digits: Map<char, int>) -> bool {
    match constraint {
        Constraint::AtLeast(left, right) => term_value(left, digits) >= term_value(right, digits),
        Constraint::AtMost(left, right) => term_value(left, digits) <= term_value(right, digits),
        Constraint::Equal(left, right) => term_value(left, digits) == term_value(right, digits),
        Constraint::Distinct(terms) => forall|i: int, j: int|
            0 <= i < j < terms.len() ==> term_value(#[trigger] terms[i], digits) != term_value(
                #[trigger] terms[j],
                digits,
            ),
    }
}

/// Whether every constraint of `constraints` is true under `digits`.
pub open spec fn all_hold(constraints: Seq<Constraint>, digits: Map<char, int>) -> bool {
    forall|i: int| 0 <= i < constraints.len() ==> holds(#[trigger] constraints[i], digits)
}

} // verus!
