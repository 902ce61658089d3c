//! Writing terms in the concrete syntax.

use crate::syntax::{
    arm_of, arms_of, lemma_case_view, lemma_const_view, names_view, term_of, terms_of, Arm,
    Branch, Exp, Term,
};
use vstd::prelude::*;
use vstd::string::StringExecFns;

verus! {

/// The texts of a list, with the separator between each two of them.
pub open spec fn join(items: Seq<Seq<char>>, separator: Seq<char>) -> Seq<char>
    decreases items.len(),
{
    if items.len() == 0 {
        Seq::empty()
    } else if items.len() == 1 {
        items[0]
    } else {
        join(items.drop_last(), separator) + separator + items.last()
    }
}

/// The text in round brackets.
pub open spec fn bracketed(text: Seq<char>) -> Seq<char> {
    "("@ + text + ")"@
}

/// A function of an application is bracketed where it is a recursive
/// binding or an abstraction.
pub open spec fn brackets_as_function(term: Term) -> bool {
    term is Rec || term is Lambda
}

/// An argument of an application is bracketed where it is an application or
/// an abstraction.
pub open spec fn brackets_as_argument(term: Term) -> bool {
    term is Apply || term is Lambda
}

/// The body of an abstraction is bracketed where it is an application.
pub open spec fn brackets_as_body(term: Term) -> bool {
    term is Apply
}

/// The text, bracketed where `needed`.
pub open spec fn bracketed_if(needed: bool, text: Seq<char>) -> Seq<char> {
    if needed {
        bracketed(text)
    } else {
        text
    }
}

/// The term in the concrete syntax, where the line it stands on is indented
/// by `indent`.
pub open spec fn show(term: Term, indent: Seq<char>) -> Seq<char>
    decreases term,
{
    match term {
        Term::Var(x) => x,
        Term::Const(c, arguments) => c + bracketed(join(show_each(arguments, indent), ", "@)),
        Term::Apply(f, a) => bracketed_if(brackets_as_function(*f), show(*f, indent)) + " "@
            + bracketed_if(brackets_as_argument(*a), show(*a, indent)),
        Term::Lambda(x, body) => "λ"@ + x + "."@ + bracketed_if(
            brackets_as_body(*body),
            show(*body, indent),
        ),
        Term::Case(scrutinee, arms) => "case "@ + show(*scrutinee, indent) + " of {\n"@ + join(
            show_each_arm(arms, indent + "  "@),
            ";\n"@,
        ) + "\n"@ + indent + "}"@,
        Term::Rec(x, body) => "rec "@ + x + " = "@ + show(*body, indent),
    }
}

/// The branch in the concrete syntax, on a line of its own that is indented
/// by `indent`.
pub open spec fn show_arm(arm: Arm, indent: Seq<char>) -> Seq<char>
    decreases arm,
{
    indent + arm.constructor + bracketed(join(arm.parameters, ", "@)) + " -> "@ + show(
        *arm.expression,
        indent,
    )
}

/// The terms of a list in the concrete syntax.
pub open spec fn show_each(terms: Seq<Term>, indent: Seq<char>) -> Seq<Seq<char>>
    decreases terms,
{
    if terms.len() == 0 {
        Seq::empty()
    } else {
        show_each(terms.drop_last(), indent).push(show(terms.last(), indent))
    }
}

/// The branches of a list in the concrete syntax.
pub open spec fn show_each_arm(arms: Seq<Arm>, indent: Seq<char>) -> Seq<Seq<char>>
    decreases arms,
{
    if arms.len() == 0 {
        Seq::empty()
    } else {
        show_each_arm(arms.drop_last(), indent).push(show_arm(arms.last(), indent))
    }
}

/// The texts of a list of terms are the texts of the terms, in order.
pub proof fn lemma_show_each(terms: Seq<Term>, indent: Seq<char>)
    ensures
        show_each(terms, indent).len() == terms.len(),
        forall|i: int|
            0 <= i < terms.len() ==> (#[trigger] show_each(terms, indent)[i]) == show(
                terms[i],
                indent,
            ),
    decreases terms.len(),
{
    if terms.len() > 0 {
        lemma_show_each(terms.drop_last(), indent);
    }
}

/// The texts of a list of branches are the texts of the branches, in order.
pub proof fn lemma_show_each_arm(arms: Seq<Arm>, indent: Seq<char>)
    ensures
        show_each_arm(arms, indent).len() == arms.len(),
        forall|i: int|
            0 <= i < arms.len() ==> (#[trigger] show_each_arm(arms, indent)[i]) == show_arm(
                arms[i],
                indent,
            ),
    decreases arms.len(),
{
    if arms.len() > 0 {
        lemma_show_each_arm(arms.drop_last(), indent);
    }
}

fn in_brackets(text: String) -> (result: String)
    ensures
        result@ == bracketed(text@),
{
    let mut result = String::from_str("(");
    result.append(text.as_str());
    result.append(")");
    result
}

fn join_names(names: &Vec<String>, separator: &str) -> (result: String)
    ensures
        result@ == join(names_view(names@), separator@),
{
    let ghost items = names_view(names@);
    let mut result = String::new();
    let mut i: usize = 0;
    assert(items.take(0) =~= Seq::<Seq<char>>::empty());
    while i < names.len()
        invariant
            i <= names@.len(),
            items == names_view(names@),
            result@ == join(items.take(i as int), separator@),
        decreases names.len() - i,
    {
        if i > 0 {
            result.append(separator);
        }
        result.append(names[i].as_str());
        proof {
            let next = items.take(i + 1);
            assert(next.drop_last() =~= items.take(i as int));
            assert(next.last() == items[i as int]);
            if i == 0 {
                assert(result@ =~= items[0]);
            }
        }
        i += 1;
    }
    assert(items.take(i as int) =~= items);
    result
}

fn format_exps(exps: &Vec<Exp>, indent: &String, separator: &str) -> (result: String)
    ensures
        result@ == join(show_each(terms_of(exps@), indent@), separator@),
    decreases exps,
{
    let ghost items = show_each(terms_of(exps@), indent@);
    proof {
        lemma_show_each(terms_of(exps@), indent@);
    }
    let mut result = String::new();
    let mut i: usize = 0;
    assert(items.take(0) =~= Seq::<Seq<char>>::empty());
    while i < exps.len()
        invariant
            i <= exps@.len(),
            items.len() == exps@.len(),
            forall|j: int|
                0 <= j < exps@.len() ==> (#[trigger] items[j]) == show(term_of(exps@[j]), indent@),
            result@ == join(items.take(i as int), separator@),
        decreases exps.len() - i,
    {
        if i > 0 {
            result.append(separator);
        }
        let item = format_exp(&exps[i], indent);
        result.append(item.as_str());
        proof {
            let next = items.take(i + 1);
            assert(next.drop_last() =~= items.take(i as int));
            assert(next.last() == items[i as int]);
            if i == 0 {
                assert(result@ =~= items[0]);
            }
        }
        i += 1;
    }
    assert(items.take(i as int) =~= items);
    result
}

fn format_branch(branch: &Branch, indent: &String) -> (result: String)
    ensures
        result@ == show_arm(branch@, indent@),
    decreases branch,
{
    let mut result = indent.clone();
    result.append(branch.constructor.as_str());
    let parameters = in_brackets(join_names(&branch.parameters, ", "));
    result.append(parameters.as_str());
    result.append(" -> ");
    let body = format_exp(&branch.expression, indent);
    result.append(body.as_str());
    result
}

fn format_branches(branches: &Vec<Branch>, indent: &String) -> (result: String)
    ensures
        result@ == join(show_each_arm(arms_of(branches@), indent@), ";\n"@),
    decreases branches,
{
    let ghost items = show_each_arm(arms_of(branches@), indent@);
    proof {
        lemma_show_each_arm(arms_of(branches@), indent@);
    }
    let mut result = String::new();
    let mut i: usize = 0;
    assert(items.take(0) =~= Seq::<Seq<char>>::empty());
    while i < branches.len()
        invariant
            i <= branches@.len(),
            items.len() == branches@.len(),
            forall|j: int|
                0 <= j < branches@.len() ==> (#[trigger] items[j]) == show_arm(
                    arm_of(branches@[j]),
                    indent@,
                ),
            result@ == join(items.take(i as int), ";\n"@),
        decreases branches.len() - i,
    {
        if i > 0 {
            result.append(";\n");
        }
        let item = format_branch(&branches[i], indent);
        result.append(item.as_str());
        proof {
            let next = items.take(i + 1);
            assert(next.drop_last() =~= items.take(i as int));
            assert(next.last() == items[i as int]);
            if i == 0 {
                assert(result@ =~= items[0]);
            }
        }
        i += 1;
    }
    assert(items.take(i as int) =~= items);
    result
}

fn format_exp(exp: &Exp, indent: &String) -> (result: String)
    ensures
        result@ == show(exp@, indent@),
    decreases exp,
{
    match exp {
        Exp::Var(var) => var.clone(),
        Exp::Const(constructor, arguments) => {
            proof {
                lemma_const_view(*constructor, *arguments);
            }
            let mut result = constructor.clone();
            let formatted = in_brackets(format_exps(arguments, indent, ", "));
            result.append(formatted.as_str());
            result
        },
        Exp::Apply(lhs, rhs) => {
            let left = format_exp(lhs, indent);
            let left = match **lhs {
                Exp::Rec(_, _) | Exp::Lambda(_, _) => in_brackets(left),
                _ => left,
            };
            let right = format_exp(rhs, indent);
            let right = match **rhs {
                Exp::Apply(_, _) | Exp::Lambda(_, _) => in_brackets(right),
                _ => right,
            };
            let mut result = left;
            result.append(" ");
            result.append(right.as_str());
            result
        },
        Exp::Lambda(var, body) => {
            let inner = format_exp(body, indent);
            let inner = match **body {
                Exp::Apply(_, _) => in_brackets(inner),
                _ => inner,
            };
            let mut result = String::from_str("λ");
            result.append(var.as_str());
            result.append(".");
            result.append(inner.as_str());
            result
        },
        Exp::Case(scrutinee, branches) => {
            proof {
                lemma_case_view(**scrutinee, *branches);
            }
            let mut deeper = indent.clone();
            deeper.append("  ");
            let mut result = String::from_str("case ");
            let formatted = format_exp(scrutinee, indent);
            result.append(formatted.as_str());
            result.append(" of {\n");
            let formatted_branches = format_branches(branches, &deeper);
            result.append(formatted_branches.as_str());
            result.append("\n");
            result.append(indent.as_str());
            result.append("}");
            result
        },
        Exp::Rec(var, body) => {
            let mut result = String::from_str("rec ");
            result.append(var.as_str());
            result.append(" = ");
            let inner = format_exp(body, indent);
            result.append(inner.as_str());
            result
        },
    }
}

/// Writes a term in the concrete syntax.
pub fn format(exp: &Exp) -> (result: String)
    ensures
        result@ == show(exp@, Seq::empty()),
{
    let indent = String::new();
    format_exp(exp, &indent)
}

} // verus!
