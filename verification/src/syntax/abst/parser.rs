//! Reading terms in the abstract syntax.

use crate::syntax::abst::grammar::{
    apply_at, bracketed_branch_list_at, bracketed_name_list_at, bracketed_var_list_at, branch_at,
    branch_item_at, branch_list_at, case_at, closed_at, constr_at, exp_at, lambda_at,
    name_item_at, name_list_at, opened_at, parsed, part_at, rec_at, var_at, var_item_at,
    var_list_at, word_at,
};
use crate::syntax::concrete::parser::{found, only_white, outcome, reading, remainder};
use crate::syntax::lexical::{is_char, is_tag, read_constructor, read_variable, skip};
use crate::syntax::text::{chars_of, text_of};
use crate::syntax::{
    arms_of, lemma_case_view, lemma_const_view, names_view, terms_of, Branch, Exp, Term,
};
use vstd::prelude::*;

verus! {

fn read_closed(chars: &Vec<char>, at: usize, end: usize) -> (result: Option<usize>)
    requires
        at <= end <= chars@.len(),
    ensures
        match result {
            Some(next) => closed_at(chars@, at as int, end as int) == Some(next as int) && at
                < next <= end,
            None => closed_at(chars@, at as int, end as int) is None,
        },
{
    let close = skip(chars, at, end);
    if is_char(chars, close, end, ')') {
        Some(close + 1)
    } else {
        None
    }
}

fn read_opened(chars: &Vec<char>, at: usize, end: usize) -> (result: Option<usize>)
    requires
        at <= end <= chars@.len(),
    ensures
        match result {
            Some(next) => opened_at(chars@, at as int, end as int) == Some(next as int) && at
                < next <= end,
            None => opened_at(chars@, at as int, end as int) is None,
        },
{
    let open = skip(chars, at, end);
    if is_char(chars, open, end, '(') {
        Some(open + 1)
    } else {
        None
    }
}

fn read_nil(chars: &Vec<char>, at: usize, end: usize) -> (result: Option<usize>)
    requires
        at <= end <= chars@.len(),
    ensures
        match result {
            Some(next) => word_at(chars@, at as int, end as int, "nil"@) == Some(next as int)
                && at < next <= end,
            None => word_at(chars@, at as int, end as int, "nil"@) is None,
        },
{
    proof {
        reveal_strlit("nil");
    }
    let start = skip(chars, at, end);
    if is_tag(chars, start, end, "nil") {
        Some(start + 3)
    } else {
        None
    }
}

fn read_cons(chars: &Vec<char>, at: usize, end: usize) -> (result: Option<usize>)
    requires
        at <= end <= chars@.len(),
    ensures
        match result {
            Some(next) => word_at(chars@, at as int, end as int, "cons"@) == Some(next as int)
                && at < next <= end,
            None => word_at(chars@, at as int, end as int, "cons"@) is None,
        },
{
    proof {
        reveal_strlit("cons");
    }
    let start = skip(chars, at, end);
    if is_tag(chars, start, end, "cons") {
        Some(start + 4)
    } else {
        None
    }
}

fn read_var(chars: &Vec<char>, at: usize, end: usize) -> (result: Option<(Exp, usize)>)
    requires
        at <= end <= chars@.len(),
    ensures
        found(result) == var_at(chars@, at as int, end as int),
        result matches Some((_, next)) ==> at < next <= end,
{
    proof {
        reveal_strlit("var");
    }
    if !is_tag(chars, at, end, "var") {
        return None;
    }
    match read_variable(chars, skip(chars, at + 3, end), end) {
        Some((name, next)) => Some((Exp::Var(name), next)),
        None => None,
    }
}

fn read_name_item(chars: &Vec<char>, at: usize, end: usize) -> (result: Option<(String, usize)>)
    requires
        at <= end <= chars@.len(),
    ensures
        match result {
            Some((name, next)) => name_item_at(chars@, at as int, end as int) == Some(
                (name@, next as int),
            ) && at < next <= end,
            None => name_item_at(chars@, at as int, end as int) is None,
        },
{
    if let Some(inside) = read_opened(chars, at, end) {
        if let Some((name, next)) = read_variable(chars, inside, end) {
            if let Some(after) = read_closed(chars, next, end) {
                return Some((name, after));
            }
        }
    }
    read_variable(chars, skip(chars, at, end), end)
}

fn read_var_item(chars: &Vec<char>, at: usize, end: usize) -> (result: Option<(Exp, usize)>)
    requires
        at <= end <= chars@.len(),
    ensures
        found(result) == var_item_at(chars@, at as int, end as int),
        result matches Some((_, next)) ==> at < next <= end,
{
    if let Some(inside) = read_opened(chars, at, end) {
        if let Some((term, next)) = read_var(chars, inside, end) {
            if let Some(after) = read_closed(chars, next, end) {
                return Some((term, after));
            }
        }
    }
    read_var(chars, skip(chars, at, end), end)
}

fn read_name_list(chars: &Vec<char>, at: usize, end: usize) -> (result: Option<
    (Vec<String>, usize),
>)
    requires
        at <= end <= chars@.len(),
    ensures
        match result {
            Some((names, next)) => name_list_at(chars@, at as int, end as int) == Some(
                (names_view(names@), next as int),
            ) && at < next <= end,
            None => name_list_at(chars@, at as int, end as int) is None,
        },
    decreases end - at, 0nat,
{
    if let Some(after) = read_nil(chars, at, end) {
        let names: Vec<String> = Vec::new();
        assert(names_view(names@) =~= Seq::<Seq<char>>::empty());
        return Some((names, after));
    }
    let after = match read_cons(chars, at, end) {
        Some(after) => after,
        None => {
            return None;
        },
    };
    let (name, next) = match read_name_item(chars, after, end) {
        Some(item) => item,
        None => {
            return None;
        },
    };
    let (mut names, rest) = match read_bracketed_name_list(chars, next, end) {
        Some(list) => list,
        None => match read_name_list(chars, next, end) {
            Some(list) => list,
            None => {
                return None;
            },
        },
    };
    let ghost others = names_view(names@);
    names.insert(0, name);
    assert(names_view(names@) =~= seq![name@] + others);
    Some((names, rest))
}

fn read_bracketed_name_list(chars: &Vec<char>, at: usize, end: usize) -> (result: Option<
    (Vec<String>, usize),
>)
    requires
        at <= end <= chars@.len(),
    ensures
        match result {
            Some((names, next)) => bracketed_name_list_at(chars@, at as int, end as int)
                == Some((names_view(names@), next as int)) && at < next <= end,
            None => bracketed_name_list_at(chars@, at as int, end as int) is None,
        },
    decreases end - at, 0nat,
{
    let inside = match read_opened(chars, at, end) {
        Some(inside) => inside,
        None => {
            return None;
        },
    };
    let (names, next) = match read_name_list(chars, inside, end) {
        Some(list) => list,
        None => {
            return None;
        },
    };
    match read_closed(chars, next, end) {
        Some(after) => Some((names, after)),
        None => None,
    }
}

fn read_var_list(chars: &Vec<char>, at: usize, end: usize) -> (result: Option<(Vec<Exp>, usize)>)
    requires
        at <= end <= chars@.len(),
    ensures
        match result {
            Some((terms, next)) => var_list_at(chars@, at as int, end as int) == Some(
                (terms_of(terms@), next as int),
            ) && at < next <= end,
            None => var_list_at(chars@, at as int, end as int) is None,
        },
    decreases end - at, 0nat,
{
    if let Some(after) = read_nil(chars, at, end) {
        let terms: Vec<Exp> = Vec::new();
        assert(terms_of(terms@) =~= Seq::<Term>::empty());
        return Some((terms, after));
    }
    let after = match read_cons(chars, at, end) {
        Some(after) => after,
        None => {
            return None;
        },
    };
    let (term, next) = match read_var_item(chars, after, end) {
        Some(item) => item,
        None => {
            return None;
        },
    };
    let (mut terms, rest) = match read_bracketed_var_list(chars, next, end) {
        Some(list) => list,
        None => match read_var_list(chars, next, end) {
            Some(list) => list,
            None => {
                return None;
            },
        },
    };
    let ghost others = terms_of(terms@);
    let ghost first = term@;
    terms.insert(0, term);
    assert(terms_of(terms@) =~= seq![first] + others);
    Some((terms, rest))
}

fn read_bracketed_var_list(chars: &Vec<char>, at: usize, end: usize) -> (result: Option<
    (Vec<Exp>, usize),
>)
    requires
        at <= end <= chars@.len(),
    ensures
        match result {
            Some((terms, next)) => bracketed_var_list_at(chars@, at as int, end as int) == Some(
                (terms_of(terms@), next as int),
            ) && at < next <= end,
            None => bracketed_var_list_at(chars@, at as int, end as int) is None,
        },
    decreases end - at, 0nat,
{
    let inside = match read_opened(chars, at, end) {
        Some(inside) => inside,
        None => {
            return None;
        },
    };
    let (terms, next) = match read_var_list(chars, inside, end) {
        Some(list) => list,
        None => {
            return None;
        },
    };
    match read_closed(chars, next, end) {
        Some(after) => Some((terms, after)),
        None => None,
    }
}

fn read_constr(chars: &Vec<char>, at: usize, end: usize) -> (result: Option<(Exp, usize)>)
    requires
        at <= end <= chars@.len(),
    ensures
        found(result) == constr_at(chars@, at as int, end as int),
        result matches Some((_, next)) ==> at < next <= end,
{
    proof {
        reveal_strlit("const");
    }
    if !is_tag(chars, at, end, "const") {
        return None;
    }
    let (name, next) = match read_constructor(chars, skip(chars, at + 5, end), end) {
        Some(read) => read,
        None => {
            return None;
        },
    };
    let (arguments, rest) = match read_bracketed_var_list(chars, next, end) {
        Some(list) => list,
        None => match read_var_list(chars, next, end) {
            Some(list) => list,
            None => {
                return None;
            },
        },
    };
    proof {
        lemma_const_view(name, arguments);
    }
    Some((Exp::Const(name, arguments), rest))
}

fn read_part(chars: &Vec<char>, at: usize, end: usize) -> (result: Option<(Exp, usize)>)
    requires
        at <= end <= chars@.len(),
    ensures
        found(result) == part_at(chars@, at as int, end as int),
        result matches Some((_, next)) ==> at < next <= end,
    decreases end - at, 2nat,
{
    if let Some(inside) = read_opened(chars, at, end) {
        if let Some((term, next)) = read_exp(chars, inside, end) {
            if let Some(after) = read_closed(chars, next, end) {
                return Some((term, after));
            }
        }
    }
    read_exp(chars, at, end)
}

fn read_apply(chars: &Vec<char>, at: usize, end: usize) -> (result: Option<(Exp, usize)>)
    requires
        at <= end <= chars@.len(),
    ensures
        found(result) == apply_at(chars@, at as int, end as int),
        result matches Some((_, next)) ==> at < next <= end,
    decreases end - at, 0nat,
{
    proof {
        reveal_strlit("apply");
    }
    if !is_tag(chars, at, end, "apply") {
        return None;
    }
    let (function, next) = match read_part(chars, at + 5, end) {
        Some(read) => read,
        None => {
            return None;
        },
    };
    match read_part(chars, next, end) {
        Some((argument, rest)) => Some(
            (Exp::Apply(Box::new(function), Box::new(argument)), rest),
        ),
        None => None,
    }
}

fn read_lambda(chars: &Vec<char>, at: usize, end: usize) -> (result: Option<(Exp, usize)>)
    requires
        at <= end <= chars@.len(),
    ensures
        found(result) == lambda_at(chars@, at as int, end as int),
        result matches Some((_, next)) ==> at < next <= end,
    decreases end - at, 0nat,
{
    proof {
        reveal_strlit("lambda");
    }
    if !is_tag(chars, at, end, "lambda") {
        return None;
    }
    let (name, next) = match read_variable(chars, skip(chars, at + 6, end), end) {
        Some(read) => read,
        None => {
            return None;
        },
    };
    match read_part(chars, next, end) {
        Some((body, rest)) => Some((Exp::Lambda(name, Box::new(body)), rest)),
        None => None,
    }
}

fn read_rec(chars: &Vec<char>, at: usize, end: usize) -> (result: Option<(Exp, usize)>)
    requires
        at <= end <= chars@.len(),
    ensures
        found(result) == rec_at(chars@, at as int, end as int),
        result matches Some((_, next)) ==> at < next <= end,
    decreases end - at, 0nat,
{
    proof {
        reveal_strlit("rec");
    }
    if !is_tag(chars, at, end, "rec") {
        return None;
    }
    let (name, next) = match read_variable(chars, skip(chars, at + 3, end), end) {
        Some(read) => read,
        None => {
            return None;
        },
    };
    match read_part(chars, next, end) {
        Some((body, rest)) => Some((Exp::Rec(name, Box::new(body)), rest)),
        None => None,
    }
}

fn read_branch(chars: &Vec<char>, at: usize, end: usize) -> (result: Option<(Branch, usize)>)
    requires
        at <= end <= chars@.len(),
    ensures
        match result {
            Some((branch, next)) => branch_at(chars@, at as int, end as int) == Some(
                (branch@, next as int),
            ) && at < next <= end,
            None => branch_at(chars@, at as int, end as int) is None,
        },
    decreases end - at, 0nat,
{
    proof {
        reveal_strlit("branch");
    }
    if !is_tag(chars, at, end, "branch") {
        return None;
    }
    let (constructor, next) = match read_constructor(chars, skip(chars, at + 6, end), end) {
        Some(read) => read,
        None => {
            return None;
        },
    };
    let (parameters, rest) = match read_bracketed_name_list(chars, next, end) {
        Some(list) => list,
        None => match read_name_list(chars, next, end) {
            Some(list) => list,
            None => {
                return None;
            },
        },
    };
    match read_part(chars, rest, end) {
        Some((body, after)) => Some(
            (Branch { constructor, parameters, expression: Box::new(body) }, after),
        ),
        None => None,
    }
}

fn read_branch_item(chars: &Vec<char>, at: usize, end: usize) -> (result: Option<
    (Branch, usize),
>)
    requires
        at <= end <= chars@.len(),
    ensures
        match result {
            Some((branch, next)) => branch_item_at(chars@, at as int, end as int) == Some(
                (branch@, next as int),
            ) && at < next <= end,
            None => branch_item_at(chars@, at as int, end as int) is None,
        },
    decreases end - at, 1nat,
{
    if let Some(inside) = read_opened(chars, at, end) {
        if let Some((branch, next)) = read_branch(chars, inside, end) {
            if let Some(after) = read_closed(chars, next, end) {
                return Some((branch, after));
            }
        }
    }
    read_branch(chars, skip(chars, at, end), end)
}

fn read_branch_list(chars: &Vec<char>, at: usize, end: usize) -> (result: Option<
    (Vec<Branch>, usize),
>)
    requires
        at <= end <= chars@.len(),
    ensures
        match result {
            Some((branches, next)) => branch_list_at(chars@, at as int, end as int) == Some(
                (arms_of(branches@), next as int),
            ) && at < next <= end,
            None => branch_list_at(chars@, at as int, end as int) is None,
        },
    decreases end - at, 2nat,
{
    if let Some(after) = read_nil(chars, at, end) {
        let branches: Vec<Branch> = Vec::new();
        assert(arms_of(branches@) =~= Seq::<crate::syntax::Arm>::empty());
        return Some((branches, after));
    }
    let after = match read_cons(chars, at, end) {
        Some(after) => after,
        None => {
            return None;
        },
    };
    let (branch, next) = match read_branch_item(chars, after, end) {
        Some(item) => item,
        None => {
            return None;
        },
    };
    let (mut branches, rest) = match read_bracketed_branch_list(chars, next, end) {
        Some(list) => list,
        None => match read_branch_list(chars, next, end) {
            Some(list) => list,
            None => {
                return None;
            },
        },
    };
    let ghost others = arms_of(branches@);
    let ghost first = branch@;
    branches.insert(0, branch);
    assert(arms_of(branches@) =~= seq![first] + others);
    Some((branches, rest))
}

fn read_bracketed_branch_list(chars: &Vec<char>, at: usize, end: usize) -> (result: Option<
    (Vec<Branch>, usize),
>)
    requires
        at <= end <= chars@.len(),
    ensures
        match result {
            Some((branches, next)) => bracketed_branch_list_at(chars@, at as int, end as int)
                == Some((arms_of(branches@), next as int)) && at < next <= end,
            None => bracketed_branch_list_at(chars@, at as int, end as int) is None,
        },
    decreases end - at, 3nat,
{
    let inside = match read_opened(chars, at, end) {
        Some(inside) => inside,
        None => {
            return None;
        },
    };
    let (branches, next) = match read_branch_list(chars, inside, end) {
        Some(list) => list,
        None => {
            return None;
        },
    };
    match read_closed(chars, next, end) {
        Some(after) => Some((branches, after)),
        None => None,
    }
}

fn read_case(chars: &Vec<char>, at: usize, end: usize) -> (result: Option<(Exp, usize)>)
    requires
        at <= end <= chars@.len(),
    ensures
        found(result) == case_at(chars@, at as int, end as int),
        result matches Some((_, next)) ==> at < next <= end,
    decreases end - at, 0nat,
{
    proof {
        reveal_strlit("case");
    }
    if !is_tag(chars, at, end, "case") {
        return None;
    }
    let (scrutinee, next) = match read_part(chars, at + 4, end) {
        Some(read) => read,
        None => {
            return None;
        },
    };
    let (branches, rest) = match read_bracketed_branch_list(chars, next, end) {
        Some(list) => list,
        None => match read_branch_list(chars, next, end) {
            Some(list) => list,
            None => {
                return None;
            },
        },
    };
    proof {
        lemma_case_view(scrutinee, branches);
    }
    Some((Exp::Case(Box::new(scrutinee), branches), rest))
}

/// Reads a term at `at`.
pub fn read_exp(chars: &Vec<char>, at: usize, end: usize) -> (result: Option<(Exp, usize)>)
    requires
        at <= end <= chars@.len(),
    ensures
        found(result) == exp_at(chars@, at as int, end as int),
        result matches Some((_, next)) ==> at < next <= end,
    decreases end - at, 1nat,
{
    if let Some(result) = read_var(chars, at, end) {
        return Some(result);
    }
    if let Some(result) = read_constr(chars, at, end) {
        return Some(result);
    }
    if let Some(result) = read_apply(chars, at, end) {
        return Some(result);
    }
    if let Some(result) = read_lambda(chars, at, end) {
        return Some(result);
    }
    if let Some(result) = read_case(chars, at, end) {
        return Some(result);
    }
    read_rec(chars, at, end)
}

/// What reading a branch at the start of a text gave: the rest of the text
/// and the branch, as mathematical values.
pub open spec fn branch_outcome(result: Result<(String, Branch), ()>) -> Option<
    (Seq<char>, crate::syntax::Arm),
> {
    match result {
        Ok((rest, branch)) => Some((rest@, branch@)),
        Err(_) => None,
    }
}

/// The rest of a text after the branch that was read at its start, and the
/// branch.
pub open spec fn branch_remainder(
    text: Seq<char>,
    read: Option<(crate::syntax::Arm, int)>,
) -> Option<(Seq<char>, crate::syntax::Arm)> {
    match read {
        Some((arm, next)) => Some((text.subrange(next, text.len() as int), arm)),
        None => None,
    }
}

fn rest_after(chars: &Vec<char>, read: Option<(Exp, usize)>) -> (result: Result<
    (String, Exp),
    (),
>)
    requires
        read matches Some((_, next)) ==> next <= chars@.len(),
    ensures
        outcome(result) == remainder(chars@, found(read)),
{
    match read {
        Some((exp, next)) => Ok((text_of(chars, next, chars.len()), exp)),
        None => Err(()),
    }
}

/// Reads a variable as a term at the start of a text, and gives the rest of
/// the text with it.
pub fn var(code: &str) -> (result: Result<(String, Exp), ()>)
    ensures
        outcome(result) == remainder(code@, var_at(code@, 0, code@.len() as int)),
{
    let chars = chars_of(code);
    rest_after(&chars, read_var(&chars, 0, chars.len()))
}

/// Reads a constructor application at the start of a text, and gives the
/// rest of the text with it.
pub fn constr(code: &str) -> (result: Result<(String, Exp), ()>)
    ensures
        outcome(result) == remainder(code@, constr_at(code@, 0, code@.len() as int)),
{
    let chars = chars_of(code);
    rest_after(&chars, read_constr(&chars, 0, chars.len()))
}

/// Reads an application at the start of a text, and gives the rest of the
/// text with it.
pub fn apply(code: &str) -> (result: Result<(String, Exp), ()>)
    ensures
        outcome(result) == remainder(code@, apply_at(code@, 0, code@.len() as int)),
{
    let chars = chars_of(code);
    rest_after(&chars, read_apply(&chars, 0, chars.len()))
}

/// Reads an abstraction at the start of a text, and gives the rest of the
/// text with it.
pub fn lambda(code: &str) -> (result: Result<(String, Exp), ()>)
    ensures
        outcome(result) == remainder(code@, lambda_at(code@, 0, code@.len() as int)),
{
    let chars = chars_of(code);
    rest_after(&chars, read_lambda(&chars, 0, chars.len()))
}

/// Reads a case expression at the start of a text, and gives the rest of
/// the text with it.
pub fn case(code: &str) -> (result: Result<(String, Exp), ()>)
    ensures
        outcome(result) == remainder(code@, case_at(code@, 0, code@.len() as int)),
{
    let chars = chars_of(code);
    rest_after(&chars, read_case(&chars, 0, chars.len()))
}

/// Reads a recursive binding at the start of a text, and gives the rest of
/// the text with it.
pub fn rec(code: &str) -> (result: Result<(String, Exp), ()>)
    ensures
        outcome(result) == remainder(code@, rec_at(code@, 0, code@.len() as int)),
{
    let chars = chars_of(code);
    rest_after(&chars, read_rec(&chars, 0, chars.len()))
}

/// Reads a branch at the start of a text, and gives the rest of the text
/// with it.
pub fn branch(code: &str) -> (result: Result<(String, Branch), ()>)
    ensures
        branch_outcome(result) == branch_remainder(
            code@,
            branch_at(code@, 0, code@.len() as int),
        ),
{
    let chars = chars_of(code);
    match read_branch(&chars, 0, chars.len()) {
        Some((branch, next)) => Ok((text_of(&chars, next, chars.len()), branch)),
        None => Err(()),
    }
}

/// Reads a term in the abstract syntax.
///
/// The text must be one term as a whole, with nothing but white space
/// after it.
pub fn parse(code: &str) -> (result: Result<Exp, ()>)
    ensures
        reading(result) == parsed(code@),
{
    let chars = chars_of(code);
    match read_exp(&chars, 0, chars.len()) {
        Some((exp, rest)) => {
            if only_white(&chars, rest, chars.len()) {
                Ok(exp)
            } else {
                Err(())
            }
        },
        None => Err(()),
    }
}

} // verus!
