//! The encoding loses nothing: under a well-formed numbering that knows
//! their names, two terms with the same encoding are the same term.

use crate::bootstrapping::encoding::{
    knows, knows_arm, knows_arms, knows_names, knows_terms, list, numeral, render, render_arm,
    render_arms, render_names, render_terms, Numbering,
};
use crate::syntax::{Arm, Term};
use vstd::prelude::*;

verus! {

/// The tags of the encoding are different words.
pub proof fn lemma_tags_differ()
    ensures
        "Zero"@ != "Suc"@,
        "Nil"@ != "Cons"@,
        "Var"@ != "Const"@,
        "Var"@ != "Apply"@,
        "Var"@ != "Lambda"@,
        "Var"@ != "Rec"@,
        "Var"@ != "Case"@,
        "Const"@ != "Apply"@,
        "Const"@ != "Lambda"@,
        "Const"@ != "Rec"@,
        "Const"@ != "Case"@,
        "Apply"@ != "Lambda"@,
        "Apply"@ != "Rec"@,
        "Apply"@ != "Case"@,
        "Lambda"@ != "Rec"@,
        "Lambda"@ != "Case"@,
        "Rec"@ != "Case"@,
{
    reveal_strlit("Zero");
    reveal_strlit("Suc");
    reveal_strlit("Nil");
    reveal_strlit("Cons");
    reveal_strlit("Var");
    reveal_strlit("Const");
    reveal_strlit("Apply");
    reveal_strlit("Lambda");
    reveal_strlit("Rec");
    reveal_strlit("Case");
    assert("Zero"@.len() == 4 && "Suc"@.len() == 3);
    assert("Nil"@.len() == 3 && "Cons"@.len() == 4);
    assert("Var"@.len() == 3 && "Rec"@.len() == 3 && "Case"@.len() == 4);
    assert("Const"@.len() == 5 && "Apply"@.len() == 5 && "Lambda"@.len() == 6);
    assert("Var"@[0] != "Rec"@[0]);
    assert("Const"@[0] != "Apply"@[0]);
}

/// Different numbers have different numerals.
pub proof fn lemma_numeral_injective(first: nat, second: nat)
    requires
        numeral(first) == numeral(second),
    ensures
        first == second,
    decreases first,
{
    lemma_tags_differ();
    if first != 0 && second != 0 {
        let one = seq![numeral((first - 1) as nat)];
        let other = seq![numeral((second - 1) as nat)];
        assert(numeral(first)->Const_1 == one);
        assert(numeral(second)->Const_1 == other);
        assert(one[0] == other[0]);
        lemma_numeral_injective((first - 1) as nat, (second - 1) as nat);
    }
}

/// Lists with the same encoding have the same items.
pub proof fn lemma_list_injective(first: Seq<Term>, second: Seq<Term>)
    requires
        list(first) == list(second),
    ensures
        first == second,
    decreases first.len(),
{
    lemma_tags_differ();
    if first.len() == 0 || second.len() == 0 {
        assert(first.len() == 0 && second.len() == 0);
        assert(first =~= second);
    } else {
        let one = seq![first.first(), list(first.drop_first())];
        let other = seq![second.first(), list(second.drop_first())];
        assert(list(first)->Const_1 == one);
        assert(list(second)->Const_1 == other);
        assert(one[0] == other[0]);
        assert(one[1] == other[1]);
        lemma_list_injective(first.drop_first(), second.drop_first());
        assert(first =~= seq![first.first()] + first.drop_first());
        assert(second =~= seq![second.first()] + second.drop_first());
    }
}

/// Lists of names with the same numerals are the same list.
pub proof fn lemma_render_names_injective(
    first: Seq<Seq<char>>,
    second: Seq<Seq<char>>,
    numbering: Numbering,
)
    requires
        numbering.wf(),
        knows_names(first, numbering),
        knows_names(second, numbering),
        render_names(first, numbering) == render_names(second, numbering),
    ensures
        first == second,
{
    assert(first.len() == render_names(first, numbering).len());
    assert(second.len() == render_names(second, numbering).len());
    assert forall|i: int| 0 <= i < first.len() implies first[i] == second[i] by {
        assert(render_names(first, numbering)[i] == numeral(numbering.variables.ids[first[i]]));
        assert(render_names(second, numbering)[i] == numeral(
            numbering.variables.ids[second[i]],
        ));
        lemma_numeral_injective(
            numbering.variables.ids[first[i]],
            numbering.variables.ids[second[i]],
        );
        assert(numbering.variables.ids.contains_key(first[i]));
        assert(numbering.variables.ids.contains_key(second[i]));
    }
    assert(first =~= second);
}

/// Terms with the same encoding are the same term.
pub proof fn lemma_render_injective(first: Term, second: Term, numbering: Numbering)
    requires
        numbering.wf(),
        knows(first, numbering),
        knows(second, numbering),
        render(first, numbering) == render(second, numbering),
    ensures
        first == second,
    decreases first,
{
    lemma_tags_differ();
    let one = render(first, numbering)->Const_1;
    let other = render(second, numbering)->Const_1;
    assert(one == other);
    match first {
        Term::Var(x) => {
            let y = second->Var_0;
            assert(one == seq![numeral(numbering.variables.ids[x])]);
            assert(other == seq![numeral(numbering.variables.ids[y])]);
            assert(one[0] == other[0]);
            lemma_numeral_injective(numbering.variables.ids[x], numbering.variables.ids[y]);
        },
        Term::Const(c, arguments) => {
            let d = second->Const_0;
            let others = second->Const_1;
            assert(one == seq![
                numeral(numbering.constructors.ids[c]),
                render_terms(arguments, numbering),
            ]);
            assert(other == seq![
                numeral(numbering.constructors.ids[d]),
                render_terms(others, numbering),
            ]);
            assert(one[0] == other[0]);
            assert(one[1] == other[1]);
            lemma_numeral_injective(numbering.constructors.ids[c], numbering.constructors.ids[d]);
            lemma_render_terms_injective(arguments, others, numbering);
        },
        Term::Apply(f, a) => {
            let g = *second->Apply_0;
            let b = *second->Apply_1;
            assert(one == seq![render(*f, numbering), render(*a, numbering)]);
            assert(other == seq![render(g, numbering), render(b, numbering)]);
            assert(one[0] == other[0]);
            assert(one[1] == other[1]);
            lemma_render_injective(*f, g, numbering);
            lemma_render_injective(*a, b, numbering);
        },
        Term::Lambda(x, body) => {
            let y = second->Lambda_0;
            let inner = *second->Lambda_1;
            assert(one == seq![numeral(numbering.variables.ids[x]), render(*body, numbering)]);
            assert(other == seq![numeral(numbering.variables.ids[y]), render(inner, numbering)]);
            assert(one[0] == other[0]);
            assert(one[1] == other[1]);
            lemma_numeral_injective(numbering.variables.ids[x], numbering.variables.ids[y]);
            lemma_render_injective(*body, inner, numbering);
        },
        Term::Rec(x, body) => {
            let y = second->Rec_0;
            let inner = *second->Rec_1;
            assert(one == seq![numeral(numbering.variables.ids[x]), render(*body, numbering)]);
            assert(other == seq![numeral(numbering.variables.ids[y]), render(inner, numbering)]);
            assert(one[0] == other[0]);
            assert(one[1] == other[1]);
            lemma_numeral_injective(numbering.variables.ids[x], numbering.variables.ids[y]);
            lemma_render_injective(*body, inner, numbering);
        },
        Term::Case(scrutinee, arms) => {
            let inner = *second->Case_0;
            let others = second->Case_1;
            assert(one == seq![render(*scrutinee, numbering), render_arms(arms, numbering)]);
            assert(other == seq![render(inner, numbering), render_arms(others, numbering)]);
            assert(one[0] == other[0]);
            assert(one[1] == other[1]);
            lemma_render_injective(*scrutinee, inner, numbering);
            lemma_render_arms_injective(arms, others, numbering);
        },
    }
}

/// Lists of terms with the same encoding are the same list.
pub proof fn lemma_render_terms_injective(
    first: Seq<Term>,
    second: Seq<Term>,
    numbering: Numbering,
)
    requires
        numbering.wf(),
        knows_terms(first, numbering),
        knows_terms(second, numbering),
        render_terms(first, numbering) == render_terms(second, numbering),
    ensures
        first == second,
    decreases first,
{
    lemma_tags_differ();
    if first.len() == 0 || second.len() == 0 {
        assert(first.len() == 0 && second.len() == 0);
        assert(first =~= second);
    } else {
        let one = seq![
            render(first.first(), numbering),
            render_terms(first.drop_first(), numbering),
        ];
        let other = seq![
            render(second.first(), numbering),
            render_terms(second.drop_first(), numbering),
        ];
        assert(render_terms(first, numbering)->Const_1 == one);
        assert(render_terms(second, numbering)->Const_1 == other);
        assert(one[0] == other[0]);
        assert(one[1] == other[1]);
        assert(knows(first[0], numbering));
        assert(knows(second[0], numbering));
        assert forall|i: int| 0 <= i < first.drop_first().len() implies knows(
            #[trigger] first.drop_first()[i],
            numbering,
        ) by {
            assert(first.drop_first()[i] == first[i + 1]);
        }
        assert forall|i: int| 0 <= i < second.drop_first().len() implies knows(
            #[trigger] second.drop_first()[i],
            numbering,
        ) by {
            assert(second.drop_first()[i] == second[i + 1]);
        }
        lemma_render_injective(first.first(), second.first(), numbering);
        lemma_render_terms_injective(first.drop_first(), second.drop_first(), numbering);
        assert(first =~= seq![first.first()] + first.drop_first());
        assert(second =~= seq![second.first()] + second.drop_first());
    }
}

/// Branches with the same encoding are the same branch.
pub proof fn lemma_render_arm_injective(first: Arm, second: Arm, numbering: Numbering)
    requires
        numbering.wf(),
        knows_arm(first, numbering),
        knows_arm(second, numbering),
        render_arm(first, numbering) == render_arm(second, numbering),
    ensures
        first == second,
    decreases first,
{
    let one = seq![
        numeral(numbering.constructors.ids[first.constructor]),
        list(render_names(first.parameters, numbering)),
        render(*first.expression, numbering),
    ];
    let other = seq![
        numeral(numbering.constructors.ids[second.constructor]),
        list(render_names(second.parameters, numbering)),
        render(*second.expression, numbering),
    ];
    assert(render_arm(first, numbering)->Const_1 == one);
    assert(render_arm(second, numbering)->Const_1 == other);
    assert(one[0] == other[0]);
    assert(one[1] == other[1]);
    assert(one[2] == other[2]);
    lemma_numeral_injective(
        numbering.constructors.ids[first.constructor],
        numbering.constructors.ids[second.constructor],
    );
    lemma_list_injective(
        render_names(first.parameters, numbering),
        render_names(second.parameters, numbering),
    );
    lemma_render_names_injective(first.parameters, second.parameters, numbering);
    lemma_render_injective(*first.expression, *second.expression, numbering);
}

/// Lists of branches with the same encoding are the same list.
pub proof fn lemma_render_arms_injective(
    first: Seq<Arm>,
    second: Seq<Arm>,
    numbering: Numbering,
)
    requires
        numbering.wf(),
        knows_arms(first, numbering),
        knows_arms(second, numbering),
        render_arms(first, numbering) == render_arms(second, numbering),
    ensures
        first == second,
    decreases first,
{
    lemma_tags_differ();
    if first.len() == 0 || second.len() == 0 {
        assert(first.len() == 0 && second.len() == 0);
        assert(first =~= second);
    } else {
        let one = seq![
            render_arm(first.first(), numbering),
            render_arms(first.drop_first(), numbering),
        ];
        let other = seq![
            render_arm(second.first(), numbering),
            render_arms(second.drop_first(), numbering),
        ];
        assert(render_arms(first, numbering)->Const_1 == one);
        assert(render_arms(second, numbering)->Const_1 == other);
        assert(one[0] == other[0]);
        assert(one[1] == other[1]);
        assert(knows_arm(first[0], numbering));
        assert(knows_arm(second[0], numbering));
        assert forall|i: int| 0 <= i < first.drop_first().len() implies knows_arm(
            #[trigger] first.drop_first()[i],
            numbering,
        ) by {
            assert(first.drop_first()[i] == first[i + 1]);
        }
        assert forall|i: int| 0 <= i < second.drop_first().len() implies knows_arm(
            #[trigger] second.drop_first()[i],
            numbering,
        ) by {
            assert(second.drop_first()[i] == second[i + 1]);
        }
        lemma_render_arm_injective(first.first(), second.first(), numbering);
        lemma_render_arms_injective(first.drop_first(), second.drop_first(), numbering);
        assert(first =~= seq![first.first()] + first.drop_first());
        assert(second =~= seq![second.first()] + second.drop_first());
    }
}

} // verus!
