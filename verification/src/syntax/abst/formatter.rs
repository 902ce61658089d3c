//! Writing terms in the abstract syntax.

use crate::syntax::{
    arm_of, arms_of, lemma_case_view, lemma_const_view, names_view, term_of, terms_of, Arm,
    Branch, Exp, Term,
};
use vstd::prelude::*;
use vstd::string::StringExecFns;
use vstd::utf8::encode_utf8;

verus! {

/// A list of names in the abstract syntax: `nil`, or `cons`, the first name
/// and the list of the others, which stands in round brackets unless it is
/// `nil`.
pub open spec fn show_names(names: Seq<Seq<char>>) -> Seq<char>
    decreases names.len(),
{
    if names.len() == 0 {
        "nil"@
    } else if names.len() == 1 {
        "cons "@ + names[0] + " "@ + show_names(names.drop_first())
    } else {
        "cons "@ + names[0] + " ("@ + show_names(names.drop_first()) + ")"@
    }
}

/// Whether a text is too long to stand on the line of what it belongs to:
/// longer than 30 bytes in UTF-8.
pub open spec fn is_long(text: Seq<char>) -> bool {
    encode_utf8(text).len() > 30
}

/// A part of an application or case expression in round brackets: on the
/// same line, or on a line of its own, indented, where `apart` holds.
pub open spec fn placed(
    apart: bool,
    on_line: Seq<char>,
    on_own_line: Seq<char>,
    indent: Seq<char>,
) -> Seq<char> {
    if apart {
        "\n"@ + indent + "("@ + on_own_line + ")"@
    } else {
        "("@ + on_line + ")"@
    }
}

/// The term in the abstract syntax, where the line it stands on is indented
/// by `indent`.
pub open spec fn show(term: Term, indent: Seq<char>) -> Seq<char>
    decreases term,
{
    match term {
        Term::Var(x) => "var "@ + x,
        Term::Lambda(x, body) => "lambda "@ + x + " ("@ + show(*body, indent) + ")"@,
        Term::Apply(f, a) => {
            let f_apart = is_long(show(*f, indent));
            let a_apart = f_apart || is_long(show(*a, indent));
            "apply "@ + placed(f_apart, show(*f, indent), show(*f, indent + "  "@), indent) + " "@
                + placed(a_apart, show(*a, indent), show(*a, indent + "  "@), indent)
        },
        Term::Case(scrutinee, arms) => "case "@ + placed(
            is_long(show(*scrutinee, indent)),
            show(*scrutinee, indent),
            show(*scrutinee, indent + "  "@),
            indent,
        ) + " (\n"@ + (indent + "  "@) + show_arms(arms, indent + "  "@) + ")"@,
        Term::Rec(x, body) => "rec "@ + x + " ("@ + show(*body, indent) + ")"@,
        Term::Const(c, arguments) => "const "@ + c + " ("@ + show_terms(arguments, indent)
            + ")"@,
    }
}

/// A list of terms in the abstract syntax.
pub open spec fn show_terms(terms: Seq<Term>, indent: Seq<char>) -> Seq<char>
    decreases terms,
{
    if terms.len() == 0 {
        "nil"@
    } else if terms.len() == 1 {
        "cons ("@ + show(terms.first(), indent) + ") "@ + show_terms(terms.drop_first(), indent)
    } else {
        "cons ("@ + show(terms.first(), indent) + ") ("@ + show_terms(
            terms.drop_first(),
            indent,
        ) + ")"@
    }
}

/// A branch in the abstract syntax: its parameters stand in round brackets
/// unless there are none.
pub open spec fn show_arm(arm: Arm, indent: Seq<char>) -> Seq<char>
    decreases arm,
{
    if arm.parameters.len() == 0 {
        "branch "@ + arm.constructor + " "@ + show_names(arm.parameters) + " ("@ + show(
            *arm.expression,
            indent,
        ) + ")"@
    } else {
        "branch "@ + arm.constructor + " ("@ + show_names(arm.parameters) + ") ("@ + show(
            *arm.expression,
            indent,
        ) + ")"@
    }
}

/// A list of branches in the abstract syntax, each on a line of its own.
pub open spec fn show_arms(arms: Seq<Arm>, indent: Seq<char>) -> Seq<char>
    decreases arms,
{
    if arms.len() == 0 {
        "nil"@
    } else if arms.len() == 1 {
        "cons ("@ + show_arm(arms.first(), indent) + ") \n"@ + indent + show_arms(
            arms.drop_first(),
            indent,
        )
    } else {
        "cons ("@ + show_arm(arms.first(), indent) + ") (\n"@ + indent + show_arms(
            arms.drop_first(),
            indent,
        ) + ")"@
    }
}

/// Writes a list of names in the abstract syntax.
pub fn format_name_list(list: &[String]) -> (result: String)
    ensures
        result@ == show_names(names_view(list@)),
{
    let ghost names = names_view(list@);
    let mut result = String::from_str("nil");
    let mut i: usize = list.len();
    while i > 0
        invariant
            i <= list@.len(),
            names == names_view(list@),
            result@ == show_names(names.skip(i as int)),
        decreases i,
    {
        i -= 1;
        proof {
            assert(names.skip(i as int).drop_first() =~= names.skip(i + 1));
            assert(names.skip(i as int)[0] == list@[i as int]@);
        }
        let mut next = String::from_str("cons ");
        next.append(list[i].as_str());
        if list.len() - i == 1 {
            next.append(" ");
            next.append(result.as_str());
        } else {
            next.append(" (");
            next.append(result.as_str());
            next.append(")");
        }
        result = next;
    }
    assert(names.skip(0) =~= names);
    result
}

fn format_branch(branch: &Branch, indent: &String) -> (result: String)
    ensures
        result@ == show_arm(branch@, indent@),
    decreases branch, 0nat,
{
    let parameters = format_name_list(branch.parameters.as_slice());
    let expression = format_exp(&branch.expression, indent);
    let mut result = String::from_str("branch ");
    result.append(branch.constructor.as_str());
    if branch.parameters.len() == 0 {
        result.append(" ");
        result.append(parameters.as_str());
        result.append(" (");
    } else {
        result.append(" (");
        result.append(parameters.as_str());
        result.append(") (");
    }
    result.append(expression.as_str());
    result.append(")");
    result
}

fn format_branch_list(list: &Vec<Branch>, indent: &String) -> (result: String)
    ensures
        result@ == show_arms(arms_of(list@), indent@),
    decreases list, 0nat,
{
    let ghost arms = arms_of(list@);
    let mut result = String::from_str("nil");
    let mut i: usize = list.len();
    while i > 0
        invariant
            i <= list@.len(),
            arms == arms_of(list@),
            result@ == show_arms(arms.skip(i as int), indent@),
        decreases i,
    {
        i -= 1;
        proof {
            assert(arms.skip(i as int).drop_first() =~= arms.skip(i + 1));
            assert(arms.skip(i as int).first() == arm_of(list@[i as int]));
        }
        let first = format_branch(&list[i], indent);
        let mut next = String::from_str("cons (");
        next.append(first.as_str());
        if list.len() - i == 1 {
            next.append(") \n");
            next.append(indent.as_str());
            next.append(result.as_str());
        } else {
            next.append(") (\n");
            next.append(indent.as_str());
            next.append(result.as_str());
            next.append(")");
        }
        result = next;
    }
    assert(arms.skip(0) =~= arms);
    result
}

fn format_exp_list(list: &Vec<Exp>, indent: &String) -> (result: String)
    ensures
        result@ == show_terms(terms_of(list@), indent@),
    decreases list, 0nat,
{
    let ghost terms = terms_of(list@);
    let mut result = String::from_str("nil");
    let mut i: usize = list.len();
    while i > 0
        invariant
            i <= list@.len(),
            terms == terms_of(list@),
            result@ == show_terms(terms.skip(i as int), indent@),
        decreases i,
    {
        i -= 1;
        proof {
            assert(terms.skip(i as int).drop_first() =~= terms.skip(i + 1));
            assert(terms.skip(i as int).first() == term_of(list@[i as int]));
        }
        let first = format_exp(&list[i], indent);
        let mut next = String::from_str("cons (");
        next.append(first.as_str());
        if list.len() - i == 1 {
            next.append(") ");
            next.append(result.as_str());
        } else {
            next.append(") (");
            next.append(result.as_str());
            next.append(")");
        }
        result = next;
    }
    assert(terms.skip(0) =~= terms);
    result
}

fn place(exp: &Exp, apart: bool, on_line: String, indent: &String) -> (result: String)
    requires
        on_line@ == show(exp@, indent@),
    ensures
        result@ == placed(apart, show(exp@, indent@), show(exp@, indent@ + "  "@), indent@),
    decreases exp, 1nat,
{
    if apart {
        let mut deeper = indent.clone();
        deeper.append("  ");
        let on_own_line = format_exp(exp, &deeper);
        let mut result = String::from_str("\n");
        result.append(indent.as_str());
        result.append("(");
        result.append(on_own_line.as_str());
        result.append(")");
        result
    } else {
        let mut result = String::from_str("(");
        result.append(on_line.as_str());
        result.append(")");
        result
    }
}

fn format_exp(exp: &Exp, indent: &String) -> (result: String)
    ensures
        result@ == show(exp@, indent@),
    decreases exp, 0nat,
{
    match exp {
        Exp::Var(x) => {
            let mut result = String::from_str("var ");
            result.append(x.as_str());
            result
        },
        Exp::Lambda(x, body) => {
            let inner = format_exp(body, indent);
            let mut result = String::from_str("lambda ");
            result.append(x.as_str());
            result.append(" (");
            result.append(inner.as_str());
            result.append(")");
            result
        },
        Exp::Apply(f, x) => {
            let f_fmt = format_exp(f, indent);
            let x_fmt = format_exp(x, indent);
            let f_in_new_line = f_fmt.as_str().as_bytes().len() > 30;
            let x_in_new_line = f_in_new_line || x_fmt.as_str().as_bytes().len() > 30;
            let f_placed = place(f, f_in_new_line, f_fmt, indent);
            let x_placed = place(x, x_in_new_line, x_fmt, indent);
            let mut result = String::from_str("apply ");
            result.append(f_placed.as_str());
            result.append(" ");
            result.append(x_placed.as_str());
            result
        },
        Exp::Case(scrutinee, branches) => {
            proof {
                lemma_case_view(**scrutinee, *branches);
            }
            let exp_fmt = format_exp(scrutinee, indent);
            let apart = exp_fmt.as_str().as_bytes().len() > 30;
            let exp_placed = place(scrutinee, apart, exp_fmt, indent);
            let mut deeper = indent.clone();
            deeper.append("  ");
            let formatted = format_branch_list(branches, &deeper);
            let mut result = String::from_str("case ");
            result.append(exp_placed.as_str());
            result.append(" (\n");
            result.append(deeper.as_str());
            result.append(formatted.as_str());
            result.append(")");
            result
        },
        Exp::Rec(x, body) => {
            let inner = format_exp(body, indent);
            let mut result = String::from_str("rec ");
            result.append(x.as_str());
            result.append(" (");
            result.append(inner.as_str());
            result.append(")");
            result
        },
        Exp::Const(c, exps) => {
            proof {
                lemma_const_view(*c, *exps);
            }
            let inner = format_exp_list(exps, indent);
            let mut result = String::from_str("const ");
            result.append(c.as_str());
            result.append(" (");
            result.append(inner.as_str());
            result.append(")");
            result
        },
    }
}

/// Writes a term in the abstract syntax.
pub fn format(exp: &Exp) -> (result: String)
    ensures
        result@ == show(exp@, Seq::empty()),
{
    let indent = String::new();
    format_exp(exp, &indent)
}

} // verus!
