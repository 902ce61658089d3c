//! The laws of the two programs, over encodings and normal forms.

use crate::bootstrapping::agreement::interpretation::lemma_interpreter_agrees;
use crate::bootstrapping::agreement::substitution::lemma_substituter_agrees;
use crate::bootstrapping::encoding::{
    encode, knows, lemma_number, numeral, render, Numbering,
};
use crate::bootstrapping::names::lemma_reduce_knows;
use crate::bootstrapping::programs::{app, app3, interpreter, substituter};
use crate::bootstrapping::steps::{depth, steps};
use crate::semantic::normal::lemma_reduce_gives_normal_form;
use crate::semantic::substitute::subst;
use crate::semantic::{enough_fuel, evaluates, normal_form};
use crate::syntax::Term;
use vstd::prelude::*;

verus! {

/// What a term steps to is its normal form.
pub proof fn lemma_steps_normal_form(term: Term, result: Term)
    requires
        steps(term, result),
    ensures
        evaluates(term),
        normal_form(term) == result,
{
    lemma_reduce_gives_normal_form(term, depth(term, result));
}

/// Self-substitution agrees with substitution: under a well-formed
/// numbering that knows their names, the substitution program applied to
/// the numeral of a variable, an encoded replacement and an encoded term has
/// a normal form, which is the encoding of the term with the replacement in
/// place of the free occurrences of the variable.
pub proof fn lemma_self_substitution(
    variable: Seq<char>,
    replacement: Term,
    term: Term,
    numbering: Numbering,
)
    requires
        numbering.wf(),
        knows(term, numbering),
        knows(replacement, numbering),
        numbering.variables.ids.contains_key(variable),
    ensures
        evaluates(
            app3(
                substituter(),
                numeral(numbering.variables.ids[variable]),
                render(replacement, numbering),
                render(term, numbering),
            ),
        ),
        normal_form(
            app3(
                substituter(),
                numeral(numbering.variables.ids[variable]),
                render(replacement, numbering),
                render(term, numbering),
            ),
        ) == render(subst(term, variable, replacement), numbering),
{
    lemma_substituter_agrees(variable, replacement, term, numbering);
    lemma_steps_normal_form(
        app3(
            substituter(),
            numeral(numbering.variables.ids[variable]),
            render(replacement, numbering),
            render(term, numbering),
        ),
        render(subst(term, variable, replacement), numbering),
    );
}

/// Self-interpretation agrees with evaluation: under a well-formed
/// numbering that knows its names, the interpreter program applied to the
/// encoding of a term that has a normal form has a normal form, which is
/// the encoding of the normal form of the term; and encoding that normal
/// form gives no new number.
pub proof fn lemma_self_interpretation(term: Term, numbering: Numbering)
    requires
        numbering.wf(),
        knows(term, numbering),
        evaluates(term),
    ensures
        evaluates(app(interpreter(), render(term, numbering))),
        normal_form(app(interpreter(), render(term, numbering))) == render(
            normal_form(term),
            numbering,
        ),
        encode(normal_form(term), numbering) == (render(normal_form(term), numbering), numbering),
{
    let fuel = enough_fuel(term);
    lemma_interpreter_agrees(term, fuel, numbering);
    lemma_steps_normal_form(
        app(interpreter(), render(term, numbering)),
        render(normal_form(term), numbering),
    );
    lemma_reduce_knows(term, fuel, numbering);
    lemma_number(normal_form(term), numbering);
}

} // verus!
