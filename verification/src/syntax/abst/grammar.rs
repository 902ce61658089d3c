//! The grammar of the abstract syntax.
//!
//! ```text
//! exp     ::= "var" variable
//!           | "const" constructor list(var)
//!           | "apply" part part
//!           | "lambda" variable part
//!           | "case" part list(branch)
//!           | "rec" variable part
//! part    ::= "(" exp ")" | exp
//! branch  ::= "branch" constructor list(variable) part
//! list(x) ::= "nil" | "cons" ("(" x ")" | x) ("(" list(x) ")" | list(x))
//! ```
//!
//! The alternatives are tried in the order given and the first that fits is
//! taken. Blanks may stand before a name, a bracket, `nil`, `cons`, and an
//! item or a list that stands without brackets; none may stand before a term
//! or an item right after an opening bracket, nor before a term that stands
//! without brackets.

use crate::syntax::lexical::{
    char_at, constructor_at, in_bounds, lemma_name_end, lemma_skip_spaces, skip_spaces, tag_at,
    variable_at,
};
use crate::syntax::{Arm, Term};
use vstd::prelude::*;

verus! {

/// The first of two results that is one.
pub open spec fn or<T>(first: Option<T>, second: Option<T>) -> Option<T> {
    if first is Some {
        first
    } else {
        second
    }
}

/// The position after the closing bracket that stands at or after `at`,
/// blanks apart.
pub open spec fn closed_at(text: Seq<char>, at: int, end: int) -> Option<int> {
    let close = skip_spaces(text, at, end);
    if char_at(text, close, end, ')') {
        Some(close + 1)
    } else {
        None
    }
}

/// The position after the opening bracket that stands at or after `at`,
/// blanks apart.
pub open spec fn opened_at(text: Seq<char>, at: int, end: int) -> Option<int> {
    let open = skip_spaces(text, at, end);
    if char_at(text, open, end, '(') {
        Some(open + 1)
    } else {
        None
    }
}

/// The position after the word `tag` that stands at or after `at`, blanks
/// apart.
pub open spec fn word_at(text: Seq<char>, at: int, end: int, tag: Seq<char>) -> Option<int> {
    let start = skip_spaces(text, at, end);
    if tag_at(text, start, end, tag) {
        Some(start + tag.len())
    } else {
        None
    }
}

/// A variable as a term, at `at`: the word `var` and a name.
pub open spec fn var_at(text: Seq<char>, at: int, end: int) -> Option<(Term, int)> {
    if tag_at(text, at, end, "var"@) {
        match variable_at(text, skip_spaces(text, at + "var"@.len(), end), end) {
            Some((name, next)) => Some((Term::Var(name), next)),
            None => None,
        }
    } else {
        None
    }
}

/// A name of a variable as an item of a list, at `at`: in round brackets,
/// or without them after blanks.
pub open spec fn name_item_at(text: Seq<char>, at: int, end: int) -> Option<(Seq<char>, int)> {
    or(
        match opened_at(text, at, end) {
            Some(inside) => match variable_at(text, inside, end) {
                Some((name, next)) => match closed_at(text, next, end) {
                    Some(after) => Some((name, after)),
                    None => None,
                },
                None => None,
            },
            None => None,
        },
        variable_at(text, skip_spaces(text, at, end), end),
    )
}

/// A variable as a term and item of a list, at `at`: in round brackets, or
/// without them after blanks.
pub open spec fn var_item_at(text: Seq<char>, at: int, end: int) -> Option<(Term, int)> {
    or(
        match opened_at(text, at, end) {
            Some(inside) => match var_at(text, inside, end) {
                Some((term, next)) => match closed_at(text, next, end) {
                    Some(after) => Some((term, after)),
                    None => None,
                },
                None => None,
            },
            None => None,
        },
        var_at(text, skip_spaces(text, at, end), end),
    )
}

/// A list of names of variables at `at`.
pub open spec fn name_list_at(text: Seq<char>, at: int, end: int) -> Option<
    (Seq<Seq<char>>, int),
>
    decreases end - at,
    when in_bounds(text, at, end)
{
    match word_at(text, at, end, "nil"@) {
        Some(after) => Some((Seq::empty(), after)),
        None => match word_at(text, at, end, "cons"@) {
            Some(after) => match name_item_at(text, after, end) {
                Some((name, next)) => if at < next <= end {
                    match or(bracketed_name_list_at(text, next, end), name_list_at(text, next, end)) {
                        Some((names, rest)) => Some((seq![name] + names, rest)),
                        None => None,
                    }
                } else {
                    None
                },
                None => None,
            },
            None => None,
        },
    }
}

/// A list of names of variables in round brackets at `at`.
pub open spec fn bracketed_name_list_at(text: Seq<char>, at: int, end: int) -> Option<
    (Seq<Seq<char>>, int),
>
    decreases end - at,
    when in_bounds(text, at, end)
{
    match opened_at(text, at, end) {
        Some(inside) => {
            proof {
                lemma_skip_spaces(text, at, end);
            }
            match name_list_at(text, inside, end) {
                Some((names, next)) => match closed_at(text, next, end) {
                    Some(after) => Some((names, after)),
                    None => None,
                },
                None => None,
            }
        },
        None => None,
    }
}

/// A list of variables as terms at `at`.
pub open spec fn var_list_at(text: Seq<char>, at: int, end: int) -> Option<(Seq<Term>, int)>
    decreases end - at,
    when in_bounds(text, at, end)
{
    match word_at(text, at, end, "nil"@) {
        Some(after) => Some((Seq::empty(), after)),
        None => match word_at(text, at, end, "cons"@) {
            Some(after) => match var_item_at(text, after, end) {
                Some((term, next)) => if at < next <= end {
                    match or(bracketed_var_list_at(text, next, end), var_list_at(text, next, end)) {
                        Some((terms, rest)) => Some((seq![term] + terms, rest)),
                        None => None,
                    }
                } else {
                    None
                },
                None => None,
            },
            None => None,
        },
    }
}

/// A list of variables as terms in round brackets at `at`.
pub open spec fn bracketed_var_list_at(text: Seq<char>, at: int, end: int) -> Option<
    (Seq<Term>, int),
>
    decreases end - at,
    when in_bounds(text, at, end)
{
    match opened_at(text, at, end) {
        Some(inside) => {
            proof {
                lemma_skip_spaces(text, at, end);
            }
            match var_list_at(text, inside, end) {
                Some((terms, next)) => match closed_at(text, next, end) {
                    Some(after) => Some((terms, after)),
                    None => None,
                },
                None => None,
            }
        },
        None => None,
    }
}

/// A constructor application at `at`: the word `const`, a name and a list
/// of variables, in round brackets or without.
pub open spec fn constr_at(text: Seq<char>, at: int, end: int) -> Option<(Term, int)> {
    if tag_at(text, at, end, "const"@) {
        match constructor_at(text, skip_spaces(text, at + "const"@.len(), end), end) {
            Some((name, next)) => match or(
                bracketed_var_list_at(text, next, end),
                var_list_at(text, next, end),
            ) {
                Some((arguments, rest)) => Some((Term::Const(name, arguments), rest)),
                None => None,
            },
            None => None,
        }
    } else {
        None
    }
}

/// A term at `at`, and the position after it.
pub open spec fn exp_at(text: Seq<char>, at: int, end: int) -> Option<(Term, int)>
    decreases end - at, 1nat,
    when in_bounds(text, at, end)
{
    or(
        var_at(text, at, end),
        or(
            constr_at(text, at, end),
            or(
                apply_at(text, at, end),
                or(lambda_at(text, at, end), or(case_at(text, at, end), rec_at(text, at, end))),
            ),
        ),
    )
}

/// A term as a part of another, at `at`: in round brackets, or without.
pub open spec fn part_at(text: Seq<char>, at: int, end: int) -> Option<(Term, int)>
    decreases end - at, 2nat,
    when in_bounds(text, at, end)
{
    or(
        match opened_at(text, at, end) {
            Some(inside) => {
                proof {
                    lemma_skip_spaces(text, at, end);
                }
                match exp_at(text, inside, end) {
                    Some((term, next)) => match closed_at(text, next, end) {
                        Some(after) => Some((term, after)),
                        None => None,
                    },
                    None => None,
                }
            },
            None => None,
        },
        exp_at(text, at, end),
    )
}

/// An application at `at`: the word `apply` and two parts.
pub open spec fn apply_at(text: Seq<char>, at: int, end: int) -> Option<(Term, int)>
    decreases end - at, 0nat,
    when in_bounds(text, at, end)
{
    if tag_at(text, at, end, "apply"@) {
        proof {
            reveal_strlit("apply");
        }
        match part_at(text, at + "apply"@.len(), end) {
            Some((function, next)) => if at < next <= end {
                match part_at(text, next, end) {
                    Some((argument, rest)) => Some(
                        (Term::Apply(Box::new(function), Box::new(argument)), rest),
                    ),
                    None => None,
                }
            } else {
                None
            },
            None => None,
        }
    } else {
        None
    }
}

/// An abstraction at `at`: the word `lambda`, a name and a part.
pub open spec fn lambda_at(text: Seq<char>, at: int, end: int) -> Option<(Term, int)>
    decreases end - at, 0nat,
    when in_bounds(text, at, end)
{
    if tag_at(text, at, end, "lambda"@) {
        match variable_at(text, skip_spaces(text, at + "lambda"@.len(), end), end) {
            Some((name, next)) => {
                proof {
                    lemma_skip_spaces(text, at + "lambda"@.len(), end);
                    lemma_name_end(text, skip_spaces(text, at + "lambda"@.len(), end) + 1, end);
                }
                match part_at(text, next, end) {
                    Some((body, rest)) => Some((Term::Lambda(name, Box::new(body)), rest)),
                    None => None,
                }
            },
            None => None,
        }
    } else {
        None
    }
}

/// A recursive binding at `at`: the word `rec`, a name and a part.
pub open spec fn rec_at(text: Seq<char>, at: int, end: int) -> Option<(Term, int)>
    decreases end - at, 0nat,
    when in_bounds(text, at, end)
{
    if tag_at(text, at, end, "rec"@) {
        match variable_at(text, skip_spaces(text, at + "rec"@.len(), end), end) {
            Some((name, next)) => {
                proof {
                    lemma_skip_spaces(text, at + "rec"@.len(), end);
                    lemma_name_end(text, skip_spaces(text, at + "rec"@.len(), end) + 1, end);
                }
                match part_at(text, next, end) {
                    Some((body, rest)) => Some((Term::Rec(name, Box::new(body)), rest)),
                    None => None,
                }
            },
            None => None,
        }
    } else {
        None
    }
}

/// A case expression at `at`: the word `case`, a part and a list of
/// branches, in round brackets or without.
pub open spec fn case_at(text: Seq<char>, at: int, end: int) -> Option<(Term, int)>
    decreases end - at, 0nat,
    when in_bounds(text, at, end)
{
    if tag_at(text, at, end, "case"@) {
        proof {
            reveal_strlit("case");
        }
        match part_at(text, at + "case"@.len(), end) {
            Some((scrutinee, next)) => if at < next <= end {
                match or(bracketed_branch_list_at(text, next, end), branch_list_at(text, next, end)) {
                    Some((arms, rest)) => Some((Term::Case(Box::new(scrutinee), arms), rest)),
                    None => None,
                }
            } else {
                None
            },
            None => None,
        }
    } else {
        None
    }
}

/// A branch at `at`: the word `branch`, a name, a list of names of
/// variables, in round brackets or without, and a part.
pub open spec fn branch_at(text: Seq<char>, at: int, end: int) -> Option<(Arm, int)>
    decreases end - at, 0nat,
    when in_bounds(text, at, end)
{
    if tag_at(text, at, end, "branch"@) {
        match constructor_at(text, skip_spaces(text, at + "branch"@.len(), end), end) {
            Some((constructor, next)) => match or(
                bracketed_name_list_at(text, next, end),
                name_list_at(text, next, end),
            ) {
                Some((parameters, rest)) => if at < rest <= end {
                    match part_at(text, rest, end) {
                        Some((body, after)) => Some(
                            (Arm { constructor, parameters, expression: Box::new(body) }, after),
                        ),
                        None => None,
                    }
                } else {
                    None
                },
                None => None,
            },
            None => None,
        }
    } else {
        None
    }
}

/// A branch as an item of a list, at `at`: in round brackets, or without
/// them after blanks.
pub open spec fn branch_item_at(text: Seq<char>, at: int, end: int) -> Option<(Arm, int)>
    decreases end - at, 1nat,
    when in_bounds(text, at, end)
{
    proof {
        lemma_skip_spaces(text, at, end);
    }
    or(
        match opened_at(text, at, end) {
            Some(inside) => match branch_at(text, inside, end) {
                Some((arm, next)) => match closed_at(text, next, end) {
                    Some(after) => Some((arm, after)),
                    None => None,
                },
                None => None,
            },
            None => None,
        },
        branch_at(text, skip_spaces(text, at, end), end),
    )
}

/// A list of branches at `at`.
pub open spec fn branch_list_at(text: Seq<char>, at: int, end: int) -> Option<(Seq<Arm>, int)>
    decreases end - at, 2nat,
    when in_bounds(text, at, end)
{
    match word_at(text, at, end, "nil"@) {
        Some(after) => Some((Seq::empty(), after)),
        None => match word_at(text, at, end, "cons"@) {
            Some(after) => {
                proof {
                    reveal_strlit("cons");
                    lemma_skip_spaces(text, at, end);
                }
                match branch_item_at(text, after, end) {
                    Some((arm, next)) => if at < next <= end {
                        match or(
                            bracketed_branch_list_at(text, next, end),
                            branch_list_at(text, next, end),
                        ) {
                            Some((arms, rest)) => Some((seq![arm] + arms, rest)),
                            None => None,
                        }
                    } else {
                        None
                    },
                    None => None,
                }
            },
            None => None,
        },
    }
}

/// A list of branches in round brackets at `at`.
pub open spec fn bracketed_branch_list_at(text: Seq<char>, at: int, end: int) -> Option<
    (Seq<Arm>, int),
>
    decreases end - at, 3nat,
    when in_bounds(text, at, end)
{
    match opened_at(text, at, end) {
        Some(inside) => {
            proof {
                lemma_skip_spaces(text, at, end);
            }
            match branch_list_at(text, inside, end) {
                Some((arms, next)) => match closed_at(text, next, end) {
                    Some(after) => Some((arms, after)),
                    None => None,
                },
                None => None,
            }
        },
        None => None,
    }
}

/// What a text means: the term that it holds as a whole, white space at
/// its end apart.
pub open spec fn parsed(text: Seq<char>) -> Option<Term> {
    match exp_at(text, 0, text.len() as int) {
        Some((term, next)) => if crate::syntax::concrete::grammar::all_white(
            text,
            next,
            text.len() as int,
        ) {
            Some(term)
        } else {
            None
        },
        None => None,
    }
}

} // verus!
