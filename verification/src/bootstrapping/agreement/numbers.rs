//! The program that compares numerals tells whether two numbers are the
//! same.

use crate::bootstrapping::agreement::data::{datum, lemma_con_datum, lemma_numeral_datum};
use crate::bootstrapping::agreement::rewrite::{
    inert, lemma_bind0, lemma_bind1, lemma_subst_app2, lemma_subst_arm0, lemma_subst_arm1,
    lemma_subst_cases2, lemma_subst_con0, lemma_takes,
};
use crate::bootstrapping::agreement::words::lemma_codes;
use crate::bootstrapping::encoding::numeral;
use crate::bootstrapping::programs::{
    app, app2, arm, cases, lam, same_number, same_number_body, truth, v,
};
use crate::bootstrapping::steps::{
    lemma_steps_apply, lemma_steps_case, lemma_steps_lambda, lemma_steps_rec, steps,
};
use crate::semantic::substitute::subst;
use crate::semantic::{arm_matches, bind};
use crate::syntax::Term;
use vstd::prelude::*;

verus! {

/// A truth value is finished data.
pub proof fn lemma_truth_datum(holds: bool)
    ensures
        datum(truth(holds)),
{
    lemma_con_datum("True"@, seq![]);
    lemma_con_datum("False"@, seq![]);
}

/// Substitution in the body of the program that compares numerals.
pub proof fn lemma_same_number_body_subst(
    recur: Term,
    first: Term,
    second: Term,
    third: Term,
    x: Seq<char>,
    r: Term,
)
    ensures
        subst(same_number_body(recur, first, second, third), x, r) == same_number_body(
            if x == "m"@ || x == "n"@ {
                recur
            } else {
                subst(recur, x, r)
            },
            subst(first, x, r),
            subst(second, x, r),
            if x == "m"@ {
                third
            } else {
                subst(third, x, r)
            },
        ),
{
    lemma_codes();
    reveal_with_fuel(subst, 4);
    let t = truth(true);
    let f = truth(false);
    let call = app2(recur, v("m"@), v("n"@));
    let a1 = arm("Zero"@, seq![], t);
    let a2 = arm("Suc"@, seq!["n"@], f);
    let b1 = arm("Zero"@, seq![], f);
    let b2 = arm("Suc"@, seq!["n"@], call);
    let inner1 = cases(second, seq![a1, a2]);
    let inner2 = cases(third, seq![b1, b2]);
    let o1 = arm("Zero"@, seq![], inner1);
    let o2 = arm("Suc"@, seq!["m"@], inner2);
    lemma_subst_con0("True"@, x, r);
    lemma_subst_con0("False"@, x, r);
    lemma_subst_arm0("Zero"@, t, x, r);
    lemma_subst_arm0("Zero"@, f, x, r);
    lemma_subst_arm1("Suc"@, "n"@, f, x, r);
    lemma_subst_arm1("Suc"@, "n"@, call, x, r);
    lemma_subst_cases2(second, a1, a2, x, r);
    lemma_subst_cases2(third, b1, b2, x, r);
    lemma_subst_arm0("Zero"@, inner1, x, r);
    lemma_subst_arm1("Suc"@, "m"@, inner2, x, r);
    lemma_subst_cases2(first, o1, o2, x, r);
}

/// Substitution leaves the program that compares numerals as it is.
pub proof fn lemma_same_number_inert()
    ensures
        inert(same_number()),
{
    assert forall|x: Seq<char>, r: Term| #[trigger] subst(same_number(), x, r)
        == same_number() by {
        lemma_codes();
        reveal_with_fuel(subst, 4);
        lemma_same_number_body_subst(v("same"@), v("m"@), v("n"@), v("n"@), x, r);
    }
}

/// The program that compares numerals unfolds to an abstraction.
proof fn lemma_same_number_unfolds()
    ensures
        steps(
            same_number(),
            lam(
                "m"@,
                lam("n"@, same_number_body(same_number(), v("m"@), v("n"@), v("n"@))),
            ),
        ),
{
    let program = same_number();
    let unfolded = lam("n"@, same_number_body(program, v("m"@), v("n"@), v("n"@)));
    let body = lam("m"@, lam("n"@, same_number_body(v("same"@), v("m"@), v("n"@), v("n"@))));
    assert(subst(body, "same"@, program) == lam("m"@, unfolded)) by {
        lemma_codes();
        reveal_with_fuel(subst, 4);
        lemma_same_number_body_subst(v("same"@), v("m"@), v("n"@), v("n"@), "same"@, program);
    }
    lemma_steps_lambda("m"@, unfolded);
    lemma_steps_rec("same"@, body, lam("m"@, unfolded));
}

/// The program that compares numerals, applied to one numeral, is an
/// abstraction.
proof fn lemma_same_number_applied(a: Term)
    requires
        datum(a),
    ensures
        steps(
            app(same_number(), a),
            lam("n"@, same_number_body(same_number(), a, v("n"@), v("n"@))),
        ),
{
    let program = same_number();
    let unfolded = lam("n"@, same_number_body(program, v("m"@), v("n"@), v("n"@)));
    let with_first = same_number_body(program, a, v("n"@), v("n"@));
    lemma_same_number_unfolds();
    assert(subst(unfolded, "m"@, a) == lam("n"@, with_first)) by {
        lemma_codes();
        reveal_with_fuel(subst, 4);
        lemma_same_number_body_subst(program, v("m"@), v("n"@), v("n"@), "m"@, a);
    }
    lemma_steps_lambda("n"@, with_first);
    lemma_steps_apply(program, a, "m"@, unfolded, a, lam("n"@, with_first));
}

/// What the case on the second numeral steps to, where the first numeral
/// is zero.
proof fn lemma_same_number_zero(second: nat)
    ensures
        steps(
            cases(
                numeral(second),
                seq![
                    arm("Zero"@, seq![], truth(true)),
                    arm("Suc"@, seq!["n"@], truth(false)),
                ],
            ),
            truth(0 == second),
        ),
{
    let b = numeral(second);
    let a1 = arm("Zero"@, seq![], truth(true));
    let a2 = arm("Suc"@, seq!["n"@], truth(false));
    lemma_numeral_datum(second);
    lemma_truth_datum(true);
    lemma_truth_datum(false);
    if second == 0 {
        lemma_takes(seq![a1, a2], "Zero"@, 0, 0);
        lemma_bind0(truth(true), seq![], seq![]);
        lemma_steps_case(b, seq![a1, a2], "Zero"@, seq![], 0, truth(true));
    } else {
        let before = numeral((second - 1) as nat);
        assert(!arm_matches(a1, "Suc"@, 1)) by {
            lemma_codes();
        }
        lemma_takes(seq![a1, a2], "Suc"@, 1, 1);
        lemma_bind1(truth(false), "n"@, before);
        lemma_steps_case(b, seq![a1, a2], "Suc"@, seq![before], 1, truth(false));
    }
}

/// What the case on the second numeral steps to, where the first numeral
/// is not zero and the call on the numbers before the two gives what it
/// should.
proof fn lemma_same_number_suc(program: Term, less: Term, second: nat, result: Term)
    requires
        inert(program),
        datum(less),
        second == 0 ==> result == truth(false),
        second > 0 ==> steps(app2(program, less, numeral((second - 1) as nat)), result),
    ensures
        steps(
            bind(
                cases(
                    numeral(second),
                    seq![
                        arm("Zero"@, seq![], truth(false)),
                        arm("Suc"@, seq!["n"@], app2(program, v("m"@), v("n"@))),
                    ],
                ),
                seq!["m"@],
                seq![less],
                1,
            ),
            result,
        ),
{
    let b = numeral(second);
    let f = truth(false);
    let call = app2(program, v("m"@), v("n"@));
    let call_first = app2(program, less, v("n"@));
    let b1 = arm("Zero"@, seq![], f);
    let b2 = arm("Suc"@, seq!["n"@], call);
    let c2 = arm("Suc"@, seq!["n"@], call_first);
    let inner = cases(b, seq![b1, b2]);
    let bound = cases(b, seq![b1, c2]);
    lemma_numeral_datum(second);
    lemma_truth_datum(false);
    lemma_bind1(inner, "m"@, less);
    assert(subst(inner, "m"@, less) == bound) by {
        lemma_codes();
        lemma_subst_app2(program, v("m"@), v("n"@), "m"@, less);
        lemma_subst_arm0("Zero"@, f, "m"@, less);
        lemma_subst_arm1("Suc"@, "n"@, call, "m"@, less);
        lemma_subst_cases2(b, b1, b2, "m"@, less);
    }
    if second == 0 {
        lemma_takes(seq![b1, c2], "Zero"@, 0, 0);
        lemma_bind0(f, seq![], seq![]);
        lemma_steps_case(b, seq![b1, c2], "Zero"@, seq![], 0, f);
    } else {
        let before = numeral((second - 1) as nat);
        lemma_numeral_datum((second - 1) as nat);
        assert(!arm_matches(b1, "Suc"@, 1)) by {
            lemma_codes();
        }
        lemma_takes(seq![b1, c2], "Suc"@, 1, 1);
        lemma_bind1(call_first, "n"@, before);
        assert(subst(call_first, "n"@, before) == app2(program, less, before)) by {
            lemma_subst_app2(program, less, v("n"@), "n"@, before);
        }
        lemma_steps_case(b, seq![b1, c2], "Suc"@, seq![before], 1, result);
    }
}

/// The program that compares numerals, applied to the numerals of two
/// numbers, gives `True()` where the numbers are the same and `False()`
/// where they are not.
pub proof fn lemma_same_number(first: nat, second: nat)
    ensures
        steps(app2(same_number(), numeral(first), numeral(second)), truth(first == second)),
    decreases first,
{
    let program = same_number();
    let a = numeral(first);
    let b = numeral(second);
    let result = truth(first == second);
    lemma_numeral_datum(first);
    lemma_numeral_datum(second);
    lemma_same_number_applied(a);
    let with_first = same_number_body(program, a, v("n"@), v("n"@));
    let with_both = same_number_body(program, a, b, b);
    assert(subst(with_first, "n"@, b) == with_both) by {
        lemma_codes();
        reveal_with_fuel(subst, 2);
        lemma_same_number_body_subst(program, a, v("n"@), v("n"@), "n"@, b);
    }
    assert(steps(with_both, result)) by {
        let inner1 = cases(
            b,
            seq![arm("Zero"@, seq![], truth(true)), arm("Suc"@, seq!["n"@], truth(false))],
        );
        let inner2 = cases(
            b,
            seq![
                arm("Zero"@, seq![], truth(false)),
                arm("Suc"@, seq!["n"@], app2(program, v("m"@), v("n"@))),
            ],
        );
        let o1 = arm("Zero"@, seq![], inner1);
        let o2 = arm("Suc"@, seq!["m"@], inner2);
        if first == 0 {
            lemma_same_number_zero(second);
            lemma_takes(seq![o1, o2], "Zero"@, 0, 0);
            lemma_bind0(inner1, seq![], seq![]);
            lemma_steps_case(a, seq![o1, o2], "Zero"@, seq![], 0, result);
        } else {
            let less = numeral((first - 1) as nat);
            lemma_numeral_datum((first - 1) as nat);
            lemma_same_number_inert();
            if second > 0 {
                lemma_same_number((first - 1) as nat, (second - 1) as nat);
            }
            lemma_same_number_suc(program, less, second, result);
            assert(!arm_matches(o1, "Suc"@, 1)) by {
                lemma_codes();
            }
            lemma_takes(seq![o1, o2], "Suc"@, 1, 1);
            lemma_steps_case(a, seq![o1, o2], "Suc"@, seq![less], 1, result);
        }
    }
    lemma_steps_apply(app(program, a), b, "n"@, with_first, b, result);
}

} // verus!
