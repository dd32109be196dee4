//! The unknowns of a puzzle: one integer unknown of the solver for each
//! letter.
use vstd::prelude::*;
use crate::assignment::position;
use crate::constraint::Term;
use crate::engine::{int_context, int_term, int_unknown};
use crate::letters::{gather, lemma_gather};

verus! {

/// The unknowns that stand for the letters of a puzzle, all of one context,
/// one for each letter and named after it.
pub struct VariablePool<'ctx> {
    ctx: &'ctx z3::Context,
    letters: Vec<char>,
    terms: Vec<z3::ast::Int<'ctx>>,
}

impl<'ctx> VariablePool<'ctx> {
    #[verifier::type_invariant]
    spec fn well_formed(&self) -> bool {
        &&& self.letters.len() == self.terms.len()
        &&& self.letters@.no_duplicates()
        &&& forall|i: int|
            0 <= i < self.terms.len() ==> int_term(#[trigger] self.terms[i]) == Term::Letter(
                self.letters[i],
            )
        &&& forall|i: int|
            0 <= i < self.terms.len() ==> int_context(#[trigger] self.terms[i]) == *self.ctx
    }

    /// The letters that have an unknown, in the order in which the unknowns
    /// were made.
    pub closed spec fn letters(&self) -> Seq<char> {
        self.letters@
    }

    /// The context that the unknowns belong to.
    pub closed spec fn home(&self) -> z3::Context {
        *self.ctx
    }

    /// The letters that have an unknown, none of them twice.
    pub fn letter_list(&self) -> (letters: &Vec<char>)
        ensures
            letters@ == self.letters(),
            letters@.no_duplicates(),
    {
        proof {
            use_type_invariant(self);
        }
        &self.letters
    }

    /// The unknowns, in the order of their letters.
    pub fn terms(&self) -> (terms: &Vec<z3::ast::Int<'ctx>>)
        ensures
            terms.len() == self.letters().len(),
            forall|i: int|
                0 <= i < terms.len() ==> int_term(#[trigger] terms[i]) == Term::Letter(
                    self.letters()[i],
                ),
            forall|i: int| 0 <= i < terms.len() ==> int_context(#[trigger] terms[i]) == self.home(),
    {
        proof {
            use_type_invariant(self);
        }
        &self.terms
    }

    /// The unknown of `letter`, if it has one.
    pub fn variable(&self, letter: char) -> (term: Option<&z3::ast::Int<'ctx>>)
        ensures
            term is Some <==> self.letters().contains(letter),
            term matches Some(found) ==> int_term(*found) == Term::Letter(letter) && int_context(
                *found,
            ) == self.home(),
    {
        proof {
            use_type_invariant(self);
        }
        match position(&self.letters, letter) {
            Some(index) => Some(&self.terms[index]),
            None => None,
        }
    }
}

/// One unknown of the context for each letter of `letters`, named after the
/// letter. A letter that stands twice in `letters` gets one unknown, at its
/// first place. No letter may be the NUL character, which no name can hold.
pub fn generate_variables<'ctx>(ctx: &'ctx z3::Context, letters: Vec<char>) -> (pool: VariablePool<
    'ctx,
>)
    requires
        forall|i: int| 0 <= i < letters.len() ==> letters[i] != '\0',
    ensures
        pool.letters() == gather(Seq::empty(), letters@),
        pool.home() == *ctx,
{
    let mut kept: Vec<char> = Vec::new();
    let mut terms: Vec<z3::ast::Int<'ctx>> = Vec::new();
    let mut index: usize = 0;
    proof {
        assert(letters@.take(0) =~= Seq::<char>::empty());
    }
    while index < letters.len()
        invariant
            index <= letters.len(),
            forall|i: int| 0 <= i < letters.len() ==> letters[i] != '\0',
            kept@ == gather(Seq::empty(), letters@.take(index as int)),
            kept@.no_duplicates(),
            kept.len() == terms.len(),
            forall|i: int|
                0 <= i < terms.len() ==> int_term(#[trigger] terms[i]) == Term::Letter(kept[i]),
            forall|i: int| 0 <= i < terms.len() ==> int_context(#[trigger] terms[i]) == *ctx,
        decreases letters.len() - index,
    {
        let letter = letters[index];
        proof {
            assert(letters@.take(index + 1).drop_last() =~= letters@.take(index as int));
            assert(letters@.take(index + 1).last() == letter);
            lemma_gather(Seq::empty(), letters@.take(index + 1));
        }
        if position(&kept, letter).is_none() {
            let term = int_unknown(ctx, letter);
            kept.push(letter);
            terms.push(term);
        }
        index += 1;
    }
    proof {
        assert(letters@.take(letters.len() as int) =~= letters@);
    }
    VariablePool { ctx, letters: kept, terms }
}

} // verus!
