//! Encoded terms are data: substitution leaves them as they are, and they
//! are their own normal forms.

use crate::bootstrapping::agreement::rewrite::inert;
use crate::bootstrapping::encoding::{
    list, numeral, render, render_arm, render_arms, render_names, render_terms, Numbering,
};
use crate::bootstrapping::programs::con;
use crate::bootstrapping::steps::{lemma_steps_con, steps};
use crate::semantic::substitute::{lemma_subst_const, subst, subst_all};
use crate::syntax::{Arm, Term};
use vstd::prelude::*;

verus! {

/// Whether a term is data that is finished: substitution leaves it as it
/// is, and it is its own normal form.
pub open spec fn datum(term: Term) -> bool {
    inert(term) && steps(term, term)
}

/// Whether every term of a list is finished data.
pub open spec fn data(terms: Seq<Term>) -> bool {
    forall|i: int| 0 <= i < terms.len() ==> datum(#[trigger] terms[i])
}

/// A constructor applied to finished data is finished data.
pub proof fn lemma_con_datum(c: Seq<char>, fields: Seq<Term>)
    requires
        data(fields),
    ensures
        datum(con(c, fields)),
{
    assert forall|x: Seq<char>, r: Term| #[trigger] subst(con(c, fields), x, r) == con(
        c,
        fields,
    ) by {
        lemma_subst_const(c, fields, x, r);
        assert forall|i: int| 0 <= i < fields.len() implies subst(fields[i], x, r)
            == fields[i] by {
            assert(datum(fields[i]));
        }
        assert(subst_all(fields, x, r) =~= fields);
    }
    assert forall|i: int| 0 <= i < fields.len() implies steps(#[trigger] fields[i], fields[i]) by {
        assert(datum(fields[i]));
    }
    lemma_steps_con(c, fields, fields);
}

/// A numeral is finished data.
pub proof fn lemma_numeral_datum(number: nat)
    ensures
        datum(numeral(number)),
    decreases number,
{
    if number == 0 {
        lemma_con_datum("Zero"@, seq![]);
    } else {
        lemma_numeral_datum((number - 1) as nat);
        lemma_con_datum("Suc"@, seq![numeral((number - 1) as nat)]);
    }
}

/// A list of finished data is finished data.
pub proof fn lemma_list_datum(items: Seq<Term>)
    requires
        data(items),
    ensures
        datum(list(items)),
    decreases items.len(),
{
    if items.len() == 0 {
        lemma_con_datum("Nil"@, seq![]);
    } else {
        assert(datum(items[0]));
        assert forall|i: int| 0 <= i < items.drop_first().len() implies datum(
            #[trigger] items.drop_first()[i],
        ) by {
            assert(items.drop_first()[i] == items[i + 1]);
        }
        lemma_list_datum(items.drop_first());
        lemma_con_datum("Cons"@, seq![items.first(), list(items.drop_first())]);
    }
}

/// The numerals of names are finished data.
pub proof fn lemma_render_names_data(names: Seq<Seq<char>>, numbering: Numbering)
    ensures
        data(render_names(names, numbering)),
        datum(list(render_names(names, numbering))),
{
    assert forall|i: int| 0 <= i < names.len() implies datum(
        #[trigger] render_names(names, numbering)[i],
    ) by {
        lemma_numeral_datum(numbering.variables.ids[names[i]]);
    }
    lemma_list_datum(render_names(names, numbering));
}

/// An encoded term is finished data.
pub proof fn lemma_render_datum(term: Term, numbering: Numbering)
    ensures
        datum(render(term, numbering)),
    decreases term,
{
    match term {
        Term::Var(x) => {
            lemma_numeral_datum(numbering.variables.ids[x]);
            lemma_con_datum("Var"@, seq![numeral(numbering.variables.ids[x])]);
        },
        Term::Const(c, arguments) => {
            lemma_numeral_datum(numbering.constructors.ids[c]);
            lemma_render_terms_datum(arguments, numbering);
            lemma_con_datum(
                "Const"@,
                seq![numeral(numbering.constructors.ids[c]), render_terms(arguments, numbering)],
            );
        },
        Term::Apply(f, a) => {
            lemma_render_datum(*f, numbering);
            lemma_render_datum(*a, numbering);
            lemma_con_datum("Apply"@, seq![render(*f, numbering), render(*a, numbering)]);
        },
        Term::Lambda(x, body) => {
            lemma_numeral_datum(numbering.variables.ids[x]);
            lemma_render_datum(*body, numbering);
            lemma_con_datum(
                "Lambda"@,
                seq![numeral(numbering.variables.ids[x]), render(*body, numbering)],
            );
        },
        Term::Rec(x, body) => {
            lemma_numeral_datum(numbering.variables.ids[x]);
            lemma_render_datum(*body, numbering);
            lemma_con_datum(
                "Rec"@,
                seq![numeral(numbering.variables.ids[x]), render(*body, numbering)],
            );
        },
        Term::Case(scrutinee, arms) => {
            lemma_render_datum(*scrutinee, numbering);
            lemma_render_arms_datum(arms, numbering);
            lemma_con_datum(
                "Case"@,
                seq![render(*scrutinee, numbering), render_arms(arms, numbering)],
            );
        },
    }
}

/// An encoded list of terms is finished data.
pub proof fn lemma_render_terms_datum(terms: Seq<Term>, numbering: Numbering)
    ensures
        datum(render_terms(terms, numbering)),
    decreases terms,
{
    if terms.len() == 0 {
        lemma_con_datum("Nil"@, seq![]);
    } else {
        lemma_render_datum(terms.first(), numbering);
        lemma_render_terms_datum(terms.drop_first(), numbering);
        lemma_con_datum(
            "Cons"@,
            seq![render(terms.first(), numbering), render_terms(terms.drop_first(), numbering)],
        );
    }
}

/// An encoded branch is finished data.
pub proof fn lemma_render_arm_datum(arm: Arm, numbering: Numbering)
    ensures
        datum(render_arm(arm, numbering)),
    decreases arm,
{
    lemma_numeral_datum(numbering.constructors.ids[arm.constructor]);
    lemma_render_names_data(arm.parameters, numbering);
    lemma_render_datum(*arm.expression, numbering);
    lemma_con_datum(
        "Branch"@,
        seq![
            numeral(numbering.constructors.ids[arm.constructor]),
            list(render_names(arm.parameters, numbering)),
            render(*arm.expression, numbering),
        ],
    );
}

/// An encoded list of branches is finished data.
pub proof fn lemma_render_arms_datum(arms: Seq<Arm>, numbering: Numbering)
    ensures
        datum(render_arms(arms, numbering)),
    decreases arms,
{
    if arms.len() == 0 {
        lemma_con_datum("Nil"@, seq![]);
    } else {
        lemma_render_arm_datum(arms.first(), numbering);
        lemma_render_arms_datum(arms.drop_first(), numbering);
        lemma_con_datum(
            "Cons"@,
            seq![render_arm(arms.first(), numbering), render_arms(arms.drop_first(), numbering)],
        );
    }
}

} // verus!
